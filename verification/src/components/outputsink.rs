//! Output sinks: peripherals that collect program output from an XBus for
//! later inspection.

use vstd::prelude::*;

use crate::board::Board;
use crate::scheduler::Scheduler;
use crate::xbus::{BusView, Endpoint, XBus};

verus! {

/// Handle to an output sink of a board, for collecting values written to its
/// bus.
#[derive(Clone, Copy)]
pub struct OutputSink {
    pub(crate) id: usize,
}

impl View for OutputSink {
    type V = int;

    closed spec fn view(&self) -> int {
        self.id as int
    }
}

/// The bus a fresh output sink is connected to: the sink is its only endpoint
/// and nobody is pending.
pub open spec fn output_bus(id: usize) -> BusView {
    BusView {
        sources: Seq::empty(),
        sinks: seq![Endpoint::Output(id)],
        readers: Seq::empty(),
        writers: Seq::empty(),
    }
}

/// Create a new sink on the board, returning it and an XBus it is connected
/// to. Every value written to the bus lands at the back of the sink's queue,
/// to be drained with [`OutputSink::queue_into`].
pub fn new(board: &mut Board) -> (r: (OutputSink, XBus))
    ensures
        r.0@ == old(board)@.outputs.len(),
        r.1@ == old(board)@.buses.len(),
        final(board)@ == old(board)@.with_output(OutputView { queue: Seq::empty() }).with_bus(
            output_bus((old(board)@.outputs.len()) as usize),
        ),
{
    let id = board.add_output(OutputState { queue: Vec::new() });
    let bus = XBus::new(board);
    board.connect_sink(bus, Endpoint::Output(id));
    let sink = OutputSink { id };
    proof {
        assert(final(board)@ =~~= old(board)@.with_output(OutputView { queue: Seq::empty() }).with_bus(
            output_bus((old(board)@.outputs.len()) as usize),
        ));
    }
    (sink, bus)
}

impl OutputSink {
    /// Move everything the sink has collected onto the end of `dest`, leaving
    /// the sink's queue empty.
    pub fn queue_into(&self, sched: &mut Scheduler, dest: &mut Vec<i32>)
        requires
            old(sched).inv_ok(),
            self@ < old(sched)@.board.outputs.len(),
        ensures
            final(sched).inv_ok(),
            final(sched).wf() == old(sched).wf(),
            final(sched)@ == (crate::scheduler::SchedulerView {
                board: old(sched)@.board.set_output(self@, OutputView { queue: Seq::empty() }),
                ..old(sched)@
            }),
            final(dest)@ == old(dest)@ + old(sched)@.board.outputs[self@].queue,
    {
        sched.output_drain(self.id, dest)
    }
}

/// The state of one output sink: the values written to it, oldest first, that
/// nothing has drained yet.
#[verifier::ext_equal]
pub struct OutputView {
    pub queue: Seq<i32>,
}

pub(crate) struct OutputState {
    pub(crate) queue: Vec<i32>,
}

impl View for OutputState {
    type V = OutputView;

    closed spec fn view(&self) -> OutputView {
        OutputView { queue: self.queue@ }
    }
}

/// Crate-internal: an output sink handle's view is its arena index.
pub(crate) broadcast proof fn output_sink_id(s: OutputSink)
    ensures
        #[trigger] s.view() == s.id as int,
{
}

/// Crate-internal: an output state's view collects its field views.
pub(crate) broadcast proof fn output_state_view(s: &OutputState)
    ensures
        #[trigger] s.view() == (OutputView { queue: s.queue@ }),
{
}

impl OutputState {
    pub(crate) fn accept(&mut self, v: i32)
        ensures
            final(self)@.queue == old(self)@.queue.push(v),
    {
        self.queue.push(v);
    }
}

} // verus!
