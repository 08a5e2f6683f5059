//! The board: an arena that owns every pin, bus and peripheral of a
//! simulation, and the bus resolution rules that tie them together.
//!
//! Buses and peripherals refer to each other by integer handles into the
//! arena, never by owning references, so the whole state is one value that
//! contracts can speak about exactly.

use vstd::prelude::*;

use crate::components::expander::{
    conn_valid, expander_read, expander_write, read_value_spec, write_pins_spec, ExpanderConn,
};
use crate::components::inputsource::{input_can_read, input_value, input_after, InputState, InputView};
use crate::components::memory::{
    addr_write_after, data_read_after, data_read_value, data_write_after, mem_wf, ptr_of, MemState,
    MemView,
};
use crate::components::outputsink::{OutputState, OutputView};
use crate::controller::{Action, Controller, Event, Regs};
use crate::pin::{Pins, SimplePin};
use crate::xbus::{empty_bus, BusState, BusView, Endpoint, XBus};

verus! {

broadcast use
    crate::xbus::xbus_id,
    crate::xbus::bus_state_view,
    crate::pin::pin_id,
    crate::pin::pins_view,
    crate::components::memory::mem_state_view,
    crate::components::inputsource::input_state_view,
    crate::components::outputsink::output_state_view;

/// The whole state of a board: pin values, buses, and each kind of peripheral,
/// all indexed by their handles.
#[verifier::ext_equal]
pub struct BoardView {
    pub pins: Seq<i32>,
    pub buses: Seq<BusView>,
    pub mems: Seq<MemView>,
    pub inputs: Seq<InputView>,
    pub outputs: Seq<OutputView>,
    pub expanders: Seq<ExpanderConn>,
}

impl BoardView {
    pub open spec fn with_pin(self, v: i32) -> BoardView {
        BoardView { pins: self.pins.push(v), ..self }
    }

    pub open spec fn with_bus(self, b: BusView) -> BoardView {
        BoardView { buses: self.buses.push(b), ..self }
    }

    pub open spec fn with_mem(self, m: MemView) -> BoardView {
        BoardView { mems: self.mems.push(m), ..self }
    }

    pub open spec fn with_input(self, iv: InputView) -> BoardView {
        BoardView { inputs: self.inputs.push(iv), ..self }
    }

    pub open spec fn with_output(self, ov: OutputView) -> BoardView {
        BoardView { outputs: self.outputs.push(ov), ..self }
    }

    pub open spec fn with_expander(self, e: ExpanderConn) -> BoardView {
        BoardView { expanders: self.expanders.push(e), ..self }
    }

    pub open spec fn set_bus(self, b: int, bus: BusView) -> BoardView {
        BoardView { buses: self.buses.update(b, bus), ..self }
    }

    pub open spec fn set_mem(self, m: int, mv: MemView) -> BoardView {
        BoardView { mems: self.mems.update(m, mv), ..self }
    }

    pub open spec fn set_input(self, i: int, iv: InputView) -> BoardView {
        BoardView { inputs: self.inputs.update(i, iv), ..self }
    }

    pub open spec fn set_output(self, o: int, ov: OutputView) -> BoardView {
        BoardView { outputs: self.outputs.update(o, ov), ..self }
    }
}

/// A board with nothing on it.
pub open spec fn empty_board() -> BoardView {
    BoardView {
        pins: Seq::empty(),
        buses: Seq::empty(),
        mems: Seq::empty(),
        inputs: Seq::empty(),
        outputs: Seq::empty(),
        expanders: Seq::empty(),
    }
}

/// The endpoint's handle lies inside the board's arena.
pub open spec fn endpoint_valid(bv: BoardView, e: Endpoint) -> bool {
    match e {
        Endpoint::Expander(x) => x < bv.expanders.len(),
        Endpoint::MemData(m, _w) => m < bv.mems.len(),
        Endpoint::MemAddr(m, _w) => m < bv.mems.len(),
        Endpoint::Input(i) => i < bv.inputs.len(),
        Endpoint::Output(o) => o < bv.outputs.len(),
    }
}

/// Well-formedness of a board: every endpoint on every bus points into the
/// arena, every memory has its 14 cells and in-range pointers, and every
/// expander's pins lie in the pin bank.
pub open spec fn board_wf(bv: BoardView) -> bool {
    &&& forall|b: int, k: int|
        0 <= b < bv.buses.len() && 0 <= k < bv.buses[b].sources.len() ==> endpoint_valid(
            bv,
            #[trigger] bv.buses[b].sources[k],
        )
    &&& forall|b: int, k: int|
        0 <= b < bv.buses.len() && 0 <= k < bv.buses[b].sinks.len() ==> endpoint_valid(
            bv,
            #[trigger] bv.buses[b].sinks[k],
        )
    &&& forall|m: int| 0 <= m < bv.mems.len() ==> mem_wf(#[trigger] bv.mems[m])
    &&& forall|x: int|
        0 <= x < bv.expanders.len() ==> conn_valid(
            #[trigger] bv.expanders[x],
            bv.pins.len() as int,
        )
}

/// Whether a source endpoint has a value to offer. Expanders and memory pins
/// are always readable; an input source follows its queue; a sink-only
/// endpoint never is.
pub open spec fn source_can_read(bv: BoardView, e: Endpoint) -> bool {
    match e {
        Endpoint::Expander(_) => true,
        Endpoint::MemData(_, _) => true,
        Endpoint::MemAddr(_, _) => true,
        Endpoint::Input(i) => input_can_read(bv.inputs[i as int]),
        Endpoint::Output(_) => false,
    }
}

/// The value a read from a source endpoint returns.
pub open spec fn source_value(bv: BoardView, e: Endpoint) -> int {
    match e {
        Endpoint::Expander(x) => read_value_spec(bv.pins, bv.expanders[x as int]),
        Endpoint::MemData(m, w) => data_read_value(bv.mems[m as int], w) as int,
        Endpoint::MemAddr(m, w) => ptr_of(bv.mems[m as int], w) as int,
        Endpoint::Input(i) => input_value(bv.inputs[i as int]) as int,
        Endpoint::Output(_) => 0,
    }
}

/// The board after a read from a source endpoint: memory data pins advance
/// their pointer, input sources consume their front value, everything else is
/// untouched.
pub open spec fn source_after(bv: BoardView, e: Endpoint) -> BoardView {
    match e {
        Endpoint::MemData(m, w) => bv.set_mem(m as int, data_read_after(bv.mems[m as int], w)),
        Endpoint::Input(i) => bv.set_input(i as int, input_after(bv.inputs[i as int])),
        _ => bv,
    }
}

/// The board after a write of `v` to a sink endpoint.
pub open spec fn sink_after(bv: BoardView, e: Endpoint, v: i32) -> BoardView {
    match e {
        Endpoint::Expander(x) => BoardView {
            pins: write_pins_spec(bv.pins, bv.expanders[x as int], v as int),
            ..bv
        },
        Endpoint::MemData(m, w) => bv.set_mem(m as int, data_write_after(bv.mems[m as int], w, v)),
        Endpoint::MemAddr(m, w) => bv.set_mem(m as int, addr_write_after(bv.mems[m as int], w, v)),
        Endpoint::Output(o) => bv.set_output(
            o as int,
            OutputView { queue: bv.outputs[o as int].queue.push(v) },
        ),
        Endpoint::Input(_) => bv,
    }
}

/// A bus is readable when a writer is pending on it or some connected source
/// has a value to offer.
pub open spec fn bus_can_read(bv: BoardView, b: int) -> bool {
    ||| bv.buses[b].writers.len() > 0
    ||| exists|k: int|
        0 <= k < bv.buses[b].sources.len() && source_can_read(bv, #[trigger] bv.buses[b].sources[k])
}

/// The index of the first readable source of the sequence at or after `k`, or
/// -1 when none is. Sources are consulted in registration order, so the first
/// registered readable source wins.
pub open spec fn first_ready_from(bv: BoardView, srcs: Seq<Endpoint>, k: int) -> int
    decreases srcs.len() - k,
{
    if !(0 <= k < srcs.len()) {
        -1
    } else if source_can_read(bv, srcs[k]) {
        k
    } else {
        first_ready_from(bv, srcs, k + 1)
    }
}

/// A controller is listed among the pending writers of a bus.
pub open spec fn writer_pending(bus: BusView, ctrl: usize) -> bool {
    exists|k: int| 0 <= k < bus.writers.len() && (#[trigger] bus.writers[k]).0 == ctrl
}

/// One read against a bus, resolved in order: take the first pending writer's
/// value; else take the first readable source's value; else park the reader.
/// Yields the value read (as `None` when the reader parked) and the board
/// after.
pub open spec fn read_step(bv: BoardView, b: int, ctrl: usize) -> (Option<int>, BoardView) {
    let bus = bv.buses[b];
    if bus.writers.len() > 0 {
        (
            Some(bus.writers[0].1 as int),
            bv.set_bus(b, BusView { writers: bus.writers.drop_first(), ..bus }),
        )
    } else {
        let k = first_ready_from(bv, bus.sources, 0);
        if k >= 0 {
            (Some(source_value(bv, bus.sources[k])), source_after(bv, bus.sources[k]))
        } else {
            (None, bv.set_bus(b, BusView { readers: bus.readers.push(ctrl), ..bus }))
        }
    }
}

/// How a write against a bus resolved.
#[derive(Clone, Copy, Debug)]
pub enum WriteOutcome {
    /// The value went to this pending reader, who is no longer pending.
    Delivered(usize),
    /// The value went to the first connected sink.
    Sunk,
    /// Nothing could take the value; the writer parked with it.
    Parked,
}

/// One write against a bus, resolved in order: hand the value to the first
/// pending reader; else to the first connected sink; else park the writer with
/// the value. Exactly one of the three happens.
pub open spec fn write_step(bv: BoardView, b: int, ctrl: usize, v: i32) -> (
    WriteOutcome,
    BoardView,
) {
    let bus = bv.buses[b];
    if bus.readers.len() > 0 {
        (
            WriteOutcome::Delivered(bus.readers[0]),
            bv.set_bus(b, BusView { readers: bus.readers.drop_first(), ..bus }),
        )
    } else if bus.sinks.len() > 0 {
        (WriteOutcome::Sunk, sink_after(bv, bus.sinks[0], v))
    } else {
        (
            WriteOutcome::Parked,
            bv.set_bus(b, BusView { writers: bus.writers.push((ctrl, v)), ..bus }),
        )
    }
}

/// The arena that owns the simulation's shared state. Build one, populate it
/// with pins, buses and peripherals, then hand it to
/// [`crate::scheduler::Scheduler::new`].
pub struct Board {
    pub(crate) pins: Pins,
    pub(crate) buses: Vec<BusState>,
    pub(crate) mems: Vec<MemState>,
    pub(crate) inputs: Vec<InputState>,
    pub(crate) outputs: Vec<OutputState>,
    pub(crate) expanders: Vec<ExpanderConn>,
}

impl View for Board {
    type V = BoardView;

    closed spec fn view(&self) -> BoardView {
        BoardView {
            pins: self.pins@,
            buses: Seq::new(self.buses@.len(), |i: int| self.buses@[i]@),
            mems: Seq::new(self.mems@.len(), |i: int| self.mems@[i]@),
            inputs: Seq::new(self.inputs@.len(), |i: int| self.inputs@[i]@),
            outputs: Seq::new(self.outputs@.len(), |i: int| self.outputs@[i]@),
            expanders: self.expanders@,
        }
    }
}

/// Crate-internal: how a board's view indexes into its fields.
proof fn view_index_facts(b: &Board)
    ensures
        b@.pins == b.pins@,
        b@.buses.len() == b.buses@.len(),
        b@.mems.len() == b.mems@.len(),
        b@.inputs.len() == b.inputs@.len(),
        b@.outputs.len() == b.outputs@.len(),
        b@.expanders == b.expanders@,
        forall|i: int| 0 <= i < b.buses@.len() ==> b@.buses[i] == (#[trigger] b.buses@[i])@,
        forall|i: int| 0 <= i < b.mems@.len() ==> b@.mems[i] == (#[trigger] b.mems@[i])@,
        forall|i: int| 0 <= i < b.inputs@.len() ==> b@.inputs[i] == (#[trigger] b.inputs@[i])@,
        forall|i: int| 0 <= i < b.outputs@.len() ==> b@.outputs[i] == (#[trigger] b.outputs@[i])@,
{
}

impl Board {
    /// An empty board.
    pub fn new() -> (r: Board)
        ensures
            r@ == empty_board(),
            board_wf(r@),
    {
        let r = Board {
            pins: Pins { cells: Vec::new() },
            buses: Vec::new(),
            mems: Vec::new(),
            inputs: Vec::new(),
            outputs: Vec::new(),
            expanders: Vec::new(),
        };
        proof {
            assert(r@ =~~= empty_board());
        }
        r
    }

    /// Add a simple pin holding the given initial value.
    pub fn pin(&mut self, initial: i32) -> (p: SimplePin)
        ensures
            final(self)@ == old(self)@.with_pin(initial),
            p@ == old(self)@.pins.len(),
    {
        let id = self.pins.cells.len();
        self.pins.cells.push(initial);
        let p = SimplePin { id };
        proof {
            assert(final(self)@ =~~= old(self)@.with_pin(initial));
        }
        p
    }

    pub(crate) fn add_bus(&mut self) -> (r: XBus)
        ensures
            final(self)@ == old(self)@.with_bus(empty_bus()),
            r@ == old(self)@.buses.len(),
    {
        let id = self.buses.len();
        self.buses.push(
            BusState { sources: Vec::new(), sinks: Vec::new(), readers: Vec::new(), writers: Vec::new() },
        );
        proof {
            assert(final(self)@.buses =~~= old(self)@.buses.push(empty_bus()));
            assert(final(self)@ =~~= old(self)@.with_bus(empty_bus()));
        }
        XBus { id }
    }

    pub(crate) fn add_mem(&mut self, m: MemState) -> (r: usize)
        ensures
            final(self)@ == old(self)@.with_mem(m@),
            r == old(self)@.mems.len(),
    {
        let id = self.mems.len();
        self.mems.push(m);
        proof {
            assert(final(self)@.mems =~~= old(self)@.mems.push(m@));
            assert(final(self)@ =~~= old(self)@.with_mem(m@));
        }
        id
    }

    pub(crate) fn add_input(&mut self, s: InputState) -> (r: usize)
        ensures
            final(self)@ == old(self)@.with_input(s@),
            r == old(self)@.inputs.len(),
    {
        let id = self.inputs.len();
        self.inputs.push(s);
        proof {
            assert(final(self)@.inputs =~~= old(self)@.inputs.push(s@));
            assert(final(self)@ =~~= old(self)@.with_input(s@));
        }
        id
    }

    pub(crate) fn add_output(&mut self, s: OutputState) -> (r: usize)
        ensures
            final(self)@ == old(self)@.with_output(s@),
            r == old(self)@.outputs.len(),
    {
        let id = self.outputs.len();
        self.outputs.push(s);
        proof {
            assert(final(self)@.outputs =~~= old(self)@.outputs.push(s@));
            assert(final(self)@ =~~= old(self)@.with_output(s@));
        }
        id
    }

    pub(crate) fn add_expander(&mut self, e: ExpanderConn) -> (r: usize)
        ensures
            final(self)@ == old(self)@.with_expander(e),
            r == old(self)@.expanders.len(),
    {
        let id = self.expanders.len();
        self.expanders.push(e);
        proof {
            assert(final(self)@ =~~= old(self)@.with_expander(e));
        }
        id
    }

    pub(crate) fn connect_source(&mut self, b: XBus, e: Endpoint)
        requires
            0 <= b@ < old(self)@.buses.len(),
        ensures
            final(self)@ == old(self)@.set_bus(
                b@,
                BusView { sources: old(self)@.buses[b@].sources.push(e), ..old(self)@.buses[b@] },
            ),
    {
        self.buses[b.id].sources.push(e);
        proof {
            let target = old(self)@.set_bus(
                b@,
                BusView { sources: old(self)@.buses[b@].sources.push(e), ..old(self)@.buses[b@] },
            );
            assert(final(self)@.buses =~~= target.buses);
            assert(final(self)@ =~~= target);
        }
    }

    pub(crate) fn connect_sink(&mut self, b: XBus, e: Endpoint)
        requires
            0 <= b@ < old(self)@.buses.len(),
        ensures
            final(self)@ == old(self)@.set_bus(
                b@,
                BusView { sinks: old(self)@.buses[b@].sinks.push(e), ..old(self)@.buses[b@] },
            ),
    {
        self.buses[b.id].sinks.push(e);
        proof {
            let target = old(self)@.set_bus(
                b@,
                BusView { sinks: old(self)@.buses[b@].sinks.push(e), ..old(self)@.buses[b@] },
            );
            assert(final(self)@.buses =~~= target.buses);
            assert(final(self)@ =~~= target);
        }
    }

    pub(crate) fn source_ready(&self, e: Endpoint) -> (r: bool)
        requires
            board_wf(self@),
            endpoint_valid(self@, e),
        ensures
            r == source_can_read(self@, e),
    {
        proof {
            view_index_facts(self);
        }
        match e {
            Endpoint::Expander(_) => true,
            Endpoint::MemData(_, _) => true,
            Endpoint::MemAddr(_, _) => true,
            Endpoint::Input(i) => self.inputs[i].ready(),
            Endpoint::Output(_) => false,
        }
    }

    pub(crate) fn source_read(&mut self, e: Endpoint) -> (r: i32)
        requires
            board_wf(old(self)@),
            endpoint_valid(old(self)@, e),
        ensures
            r as int == source_value(old(self)@, e),
            final(self)@ == source_after(old(self)@, e),
            board_wf(final(self)@),
    {
        proof {
            view_index_facts(self);
        }
        match e {
            Endpoint::Expander(x) => {
                let conn = self.expanders[x];
                let r = expander_read(&conn, &self.pins);
                proof {
                    view_index_facts(self);
                    assert(final(self)@ =~~= source_after(old(self)@, e));
                }
                r
            },
            Endpoint::MemData(m, w) => {
                let r = self.mems[m].data_read(w);
                proof {
                    view_index_facts(self);
                    assert(final(self)@.mems =~~= source_after(old(self)@, e).mems);
                    assert(final(self)@ =~~= source_after(old(self)@, e));
                }
                r
            },
            Endpoint::MemAddr(m, w) => {
                let r = self.mems[m].addr_read(w);
                proof {
                    view_index_facts(self);
                    assert(final(self)@ =~~= source_after(old(self)@, e));
                }
                r
            },
            Endpoint::Input(i) => {
                let r = self.inputs[i].read_front();
                proof {
                    view_index_facts(self);
                    assert(final(self)@.inputs =~~= source_after(old(self)@, e).inputs);
                    assert(final(self)@ =~~= source_after(old(self)@, e));
                }
                r
            },
            Endpoint::Output(_) => {
                proof {
                    view_index_facts(self);
                    assert(final(self)@ =~~= source_after(old(self)@, e));
                }
                0
            },
        }
    }

    pub(crate) fn sink_write(&mut self, e: Endpoint, v: i32)
        requires
            board_wf(old(self)@),
            endpoint_valid(old(self)@, e),
        ensures
            final(self)@ == sink_after(old(self)@, e, v),
            board_wf(final(self)@),
    {
        proof {
            view_index_facts(self);
        }
        match e {
            Endpoint::Expander(x) => {
                let conn = self.expanders[x];
                expander_write(&conn, &mut self.pins, v);
                proof {
                    view_index_facts(self);
                    assert(final(self)@ =~~= sink_after(old(self)@, e, v));
                }
            },
            Endpoint::MemData(m, w) => {
                self.mems[m].data_write(w, v);
                proof {
                    view_index_facts(self);
                    assert(final(self)@.mems =~~= sink_after(old(self)@, e, v).mems);
                    assert(final(self)@ =~~= sink_after(old(self)@, e, v));
                }
            },
            Endpoint::MemAddr(m, w) => {
                self.mems[m].addr_write(w, v);
                proof {
                    view_index_facts(self);
                    assert(final(self)@.mems =~~= sink_after(old(self)@, e, v).mems);
                    assert(final(self)@ =~~= sink_after(old(self)@, e, v));
                }
            },
            Endpoint::Input(_) => {
                proof {
                    view_index_facts(self);
                    assert(final(self)@ =~~= sink_after(old(self)@, e, v));
                }
            },
            Endpoint::Output(o) => {
                self.outputs[o].accept(v);
                proof {
                    view_index_facts(self);
                    assert(final(self)@.outputs =~~= sink_after(old(self)@, e, v).outputs);
                    assert(final(self)@ =~~= sink_after(old(self)@, e, v));
                }
            },
        }
    }

    /// True iff a pending writer or a ready source makes the bus readable.
    pub(crate) fn can_read(&self, b: XBus) -> (r: bool)
        requires
            board_wf(self@),
            0 <= b@ < self@.buses.len(),
        ensures
            r == bus_can_read(self@, b@),
    {
        proof {
            view_index_facts(self);
        }
        let bus = &self.buses[b.id];
        if bus.writers.len() > 0 {
            proof {
                assert(self@.buses[b@].writers.len() > 0);
            }
            return true;
        }
        let n = bus.sources.len();
        let mut k: usize = 0;
        while k < n
            invariant
                board_wf(self@),
                0 <= b@ < self@.buses.len(),
                bus == &self.buses[b.id as int],
                n == bus.sources.len(),
                k <= n,
                forall|j: int| 0 <= j < k ==> !source_can_read(self@, #[trigger] bus.sources@[j]),
            decreases n - k,
        {
            let e = bus.sources[k];
            proof {
                assert(e == self@.buses[b@].sources[k as int]);
            }
            if self.source_ready(e) {
                proof {
                    assert(source_can_read(self@, self@.buses[b@].sources[k as int]));
                }
                return true;
            }
            k += 1;
        }
        false
    }

    pub(crate) fn is_read_pending(&self, b: XBus, ctrl: usize) -> (r: bool)
        requires
            0 <= b@ < self@.buses.len(),
        ensures
            r == self@.buses[b@].readers.contains(ctrl),
    {
        proof {
            view_index_facts(self);
        }
        let bus = &self.buses[b.id];
        let n = bus.readers.len();
        let mut k: usize = 0;
        while k < n
            invariant
                0 <= b@ < self@.buses.len(),
                bus == &self.buses[b.id as int],
                n == bus.readers.len(),
                k <= n,
                forall|j: int| 0 <= j < k ==> bus.readers@[j] != ctrl,
            decreases n - k,
        {
            if bus.readers[k] == ctrl {
                proof {
                    assert(self@.buses[b@].readers[k as int] == ctrl);
                }
                return true;
            }
            k += 1;
        }
        false
    }

    pub(crate) fn is_write_pending(&self, b: XBus, ctrl: usize) -> (r: bool)
        requires
            0 <= b@ < self@.buses.len(),
        ensures
            r == writer_pending(self@.buses[b@], ctrl),
    {
        proof {
            view_index_facts(self);
        }
        let bus = &self.buses[b.id];
        let n = bus.writers.len();
        let mut k: usize = 0;
        while k < n
            invariant
                0 <= b@ < self@.buses.len(),
                bus == &self.buses[b.id as int],
                n == bus.writers.len(),
                k <= n,
                forall|j: int| 0 <= j < k ==> (#[trigger] bus.writers@[j]).0 != ctrl,
            decreases n - k,
        {
            if bus.writers[k].0 == ctrl {
                proof {
                    assert((self@.buses[b@].writers[k as int]).0 == ctrl);
                    assert(writer_pending(self@.buses[b@], ctrl));
                }
                return true;
            }
            k += 1;
        }
        false
    }

    /// Resolve one read by `ctrl` against bus `b`, per [`read_step`]: `Some`
    /// of the value read, or `None` after parking `ctrl` as a pending reader.
    #[verifier::loop_isolation(false)]
    pub(crate) fn bus_read(&mut self, b: XBus, ctrl: usize) -> (r: Option<i32>)
        requires
            board_wf(old(self)@),
            0 <= b@ < old(self)@.buses.len(),
        ensures
            board_wf(final(self)@),
            ({
                let (val, after) = read_step(old(self)@, b@, ctrl);
                &&& (match r {
                    Some(v) => val == Some(v as int),
                    None => val is None,
                })
                &&& final(self)@ == after
            }),
    {
        let ghost prev = self@;
        proof {
            view_index_facts(self);
        }
        if self.buses[b.id].writers.len() > 0 {
            let (_who, val) = self.buses[b.id].writers.remove(0);
            proof {
                view_index_facts(self);
                let (sval, after) = read_step(prev, b@, ctrl);
                assert(final(self)@.buses =~~= after.buses);
                assert(final(self)@ =~~= after);
            }
            return Some(val);
        }
        let n = self.buses[b.id].sources.len();
        let mut k: usize = 0;
        while k < n
            invariant
                board_wf(self@),
                self@ == prev,
                0 <= b@ < self@.buses.len(),
                n == self@.buses[b@].sources.len(),
                k <= n,
                self@.buses[b@].writers.len() == 0,
                forall|j: int|
                    0 <= j < k ==> !source_can_read(self@, #[trigger] self@.buses[b@].sources[j]),
            decreases n - k,
        {
            let e = self.buses[b.id].sources[k];
            proof {
                view_index_facts(self);
                assert(e == self@.buses[b@].sources[k as int]);
            }
            if self.source_ready(e) {
                proof {
                    lemma_first_ready(prev, prev.buses[b@].sources, 0, k as int);
                }
                let v = self.source_read(e);
                proof {
                    view_index_facts(self);
                    let (sval, after) = read_step(prev, b@, ctrl);
                    assert(sval == Some(v as int));
                    assert(final(self)@ == after);
                }
                return Some(v);
            }
            k += 1;
        }
        proof {
            lemma_first_ready_none(prev, prev.buses[b@].sources, 0);
        }
        self.buses[b.id].readers.push(ctrl);
        proof {
            view_index_facts(self);
            let (sval, after) = read_step(prev, b@, ctrl);
            assert(final(self)@.buses =~~= after.buses);
            assert(final(self)@ =~~= after);
        }
        None
    }

    /// Read a simple pin.
    pub(crate) fn pin_read(&self, p: SimplePin) -> (r: i32)
        requires
            0 <= p@ < self@.pins.len(),
        ensures
            r == self@.pins[p@],
    {
        proof {
            view_index_facts(self);
        }
        self.pins.read(p)
    }

    /// Overwrite a simple pin.
    pub(crate) fn pin_write(&mut self, p: SimplePin, v: i32)
        requires
            0 <= p@ < old(self)@.pins.len(),
        ensures
            final(self)@ == (BoardView { pins: old(self)@.pins.update(p@, v), ..old(self)@ }),
    {
        proof {
            view_index_facts(self);
        }
        self.pins.write(p, v);
        proof {
            view_index_facts(self);
            assert(final(self)@ =~~= (BoardView {
                pins: old(self)@.pins.update(p@, v),
                ..old(self)@
            }));
        }
    }

    /// How many buses the board has.
    pub(crate) fn bus_count(&self) -> (n: usize)
        ensures
            n == self@.buses.len(),
    {
        proof {
            view_index_facts(self);
        }
        self.buses.len()
    }

    /// Run one step of a controller body against this board's pin bank. The
    /// body can touch nothing of the board but the pin values.
    pub(crate) fn run_body(&mut self, c: &mut Box<dyn Controller>, regs: &mut Regs, ev: Event) -> (act: Action)
        ensures
            final(self)@.buses == old(self)@.buses,
            final(self)@.mems == old(self)@.mems,
            final(self)@.inputs == old(self)@.inputs,
            final(self)@.outputs == old(self)@.outputs,
            final(self)@.expanders == old(self)@.expanders,
            final(self)@.pins.len() == old(self)@.pins.len(),
    {
        c.execute(regs, &mut self.pins, ev)
    }

    /// Append a value to an input source's queue.
    pub(crate) fn input_push(&mut self, i: usize, v: i32)
        requires
            i < old(self)@.inputs.len(),
        ensures
            final(self)@ == old(self)@.set_input(
                i as int,
                InputView {
                    queue: old(self)@.inputs[i as int].queue.push(v),
                    ..old(self)@.inputs[i as int]
                },
            ),
    {
        proof {
            view_index_facts(self);
        }
        self.inputs[i].queue.push(v);
        proof {
            view_index_facts(self);
            assert(final(self)@ =~~= old(self)@.set_input(
                i as int,
                InputView {
                    queue: old(self)@.inputs[i as int].queue.push(v),
                    ..old(self)@.inputs[i as int]
                },
            ));
        }
    }

    /// Move everything an output sink has collected onto the end of `dest`.
    pub(crate) fn output_drain(&mut self, o: usize, dest: &mut Vec<i32>)
        requires
            o < old(self)@.outputs.len(),
        ensures
            final(self)@ == old(self)@.set_output(o as int, OutputView { queue: Seq::empty() }),
            final(dest)@ == old(dest)@ + old(self)@.outputs[o as int].queue,
    {
        proof {
            view_index_facts(self);
        }
        dest.append(&mut self.outputs[o].queue);
        proof {
            view_index_facts(self);
            assert(final(self)@ =~~= old(self)@.set_output(o as int, OutputView { queue: Seq::empty() }));
        }
    }

    /// A copy of a memory module's cells.
    pub(crate) fn mem_cells(&self, m: usize) -> (r: Vec<i32>)
        requires
            m < self@.mems.len(),
        ensures
            r@ == self@.mems[m as int].contents,
    {
        proof {
            view_index_facts(self);
        }
        let cells = &self.mems[m].contents;
        let n = cells.len();
        let mut r: Vec<i32> = Vec::new();
        let mut k: usize = 0;
        while k < n
            invariant
                n == cells@.len(),
                k <= n,
                r@ == cells@.subrange(0, k as int),
            decreases n - k,
        {
            r.push(cells[k]);
            proof {
                assert(r@ =~~= cells@.subrange(0, k + 1 as int));
            }
            k += 1;
        }
        proof {
            assert(r@ =~~= cells@);
        }
        r
    }

    /// The current position of one of a memory module's pointers.
    pub(crate) fn mem_ptr(&self, m: usize, which: usize) -> (r: usize)
        requires
            m < self@.mems.len(),
        ensures
            r == ptr_of(self@.mems[m as int], which),
    {
        proof {
            view_index_facts(self);
        }
        if which == 0 {
            self.mems[m].ptr0
        } else {
            self.mems[m].ptr1
        }
    }

    /// Resolve one write of `v` by `ctrl` against bus `b`, per [`write_step`].
    pub(crate) fn bus_write(&mut self, b: XBus, ctrl: usize, v: i32) -> (r: WriteOutcome)
        requires
            board_wf(old(self)@),
            0 <= b@ < old(self)@.buses.len(),
        ensures
            board_wf(final(self)@),
            ({
                let (out, after) = write_step(old(self)@, b@, ctrl, v);
                r == out && final(self)@ == after
            }),
    {
        let ghost prev = self@;
        proof {
            view_index_facts(self);
        }
        if self.buses[b.id].readers.len() > 0 {
            let who = self.buses[b.id].readers.remove(0);
            proof {
                view_index_facts(self);
                let (out, after) = write_step(prev, b@, ctrl, v);
                assert(final(self)@.buses =~~= after.buses);
                assert(final(self)@ =~~= after);
            }
            return WriteOutcome::Delivered(who);
        }
        if self.buses[b.id].sinks.len() > 0 {
            let e = self.buses[b.id].sinks[0];
            self.sink_write(e, v);
            return WriteOutcome::Sunk;
        }
        self.buses[b.id].writers.push((ctrl, v));
        proof {
            view_index_facts(self);
            let (out, after) = write_step(prev, b@, ctrl, v);
            assert(final(self)@.buses =~~= after.buses);
            assert(final(self)@ =~~= after);
        }
        WriteOutcome::Parked
    }
}

/// The two boards have arenas of the same sizes: no operation during a run
/// ever adds or removes a pin, bus or peripheral.
pub open spec fn board_lens(b: BoardView, a: BoardView) -> bool {
    &&& b.pins.len() == a.pins.len()
    &&& b.buses.len() == a.buses.len()
    &&& b.mems.len() == a.mems.len()
    &&& b.inputs.len() == a.inputs.len()
    &&& b.outputs.len() == a.outputs.len()
    &&& b.expanders == a.expanders
}

/// The first readable source, when there is one, lies inside the sequence.
proof fn lemma_first_ready_in_range(bv: BoardView, srcs: Seq<Endpoint>, lo: int)
    requires
        0 <= lo,
    ensures
        first_ready_from(bv, srcs, lo) == -1 || lo <= first_ready_from(bv, srcs, lo) < srcs.len(),
    decreases srcs.len() - lo,
{
    if lo < srcs.len() && !source_can_read(bv, srcs[lo]) {
        lemma_first_ready_in_range(bv, srcs, lo + 1);
    }
}

/// A read against a bus never adds or removes a pin, bus or peripheral.
pub proof fn lemma_read_step_lens(bv: BoardView, b: int, ctrl: usize)
    requires
        board_wf(bv),
        0 <= b < bv.buses.len(),
    ensures
        board_lens(read_step(bv, b, ctrl).1, bv),
{
    let bus = bv.buses[b];
    if bus.writers.len() > 0 {
    } else {
        let k = first_ready_from(bv, bus.sources, 0);
        lemma_first_ready_in_range(bv, bus.sources, 0);
        if k >= 0 {
            lemma_source_after_lens(bv, bus.sources[k]);
        }
    }
}

/// A write against a bus never adds or removes a pin, bus or peripheral.
pub proof fn lemma_write_step_lens(bv: BoardView, b: int, ctrl: usize, v: i32)
    requires
        board_wf(bv),
        0 <= b < bv.buses.len(),
    ensures
        board_lens(write_step(bv, b, ctrl, v).1, bv),
{
    let bus = bv.buses[b];
    if bus.readers.len() > 0 {
    } else if bus.sinks.len() > 0 {
        lemma_sink_after_lens(bv, bus.sinks[0], v);
    }
}

proof fn lemma_source_after_lens(bv: BoardView, e: Endpoint)
    requires
        board_wf(bv),
        endpoint_valid(bv, e),
    ensures
        board_lens(source_after(bv, e), bv),
{
}

proof fn lemma_sink_after_lens(bv: BoardView, e: Endpoint, v: i32)
    requires
        board_wf(bv),
        endpoint_valid(bv, e),
    ensures
        board_lens(sink_after(bv, e, v), bv),
{
    match e {
        Endpoint::Expander(x) => {
            lemma_write_pins_len(bv.pins, bv.expanders[x as int], v as int);
        },
        _ => {},
    }
}

proof fn lemma_write_pins_len(pins: Seq<i32>, e: ExpanderConn, v: int)
    requires
        conn_valid(e, pins.len() as int),
    ensures
        write_pins_spec(pins, e, v).len() == pins.len(),
{
}

/// The scan of [`Board::bus_read`] stopped at the first readable source.
proof fn lemma_first_ready(bv: BoardView, srcs: Seq<Endpoint>, lo: int, k: int)
    requires
        0 <= lo <= k < srcs.len(),
        source_can_read(bv, srcs[k]),
        forall|j: int| 0 <= j < k ==> !source_can_read(bv, #[trigger] srcs[j]),
    ensures
        first_ready_from(bv, srcs, lo) == k,
    decreases k - lo,
{
    if lo == k {
    } else {
        lemma_first_ready(bv, srcs, lo + 1, k);
    }
}

proof fn lemma_first_ready_none(bv: BoardView, srcs: Seq<Endpoint>, lo: int)
    requires
        0 <= lo,
        forall|j: int| 0 <= j < srcs.len() ==> !source_can_read(bv, #[trigger] srcs[j]),
    ensures
        first_ready_from(bv, srcs, lo) == -1,
    decreases srcs.len() - lo,
{
    if lo < srcs.len() {
        lemma_first_ready_none(bv, srcs, lo + 1);
    }
}

} // verus!
