//! Queued input sources: peripherals that put program input onto an XBus.

use vstd::prelude::*;

use crate::board::Board;
use crate::scheduler::Scheduler;
use crate::xbus::{BusView, Endpoint, XBus};

verus! {

/// Handle to an input source of a board, for injecting values from outside
/// the simulation.
#[derive(Clone, Copy)]
pub struct InputSource {
    pub(crate) id: usize,
}

impl View for InputSource {
    type V = int;

    closed spec fn view(&self) -> int {
        self.id as int
    }
}

/// What a nonblocking source returns when its queue is empty.
pub const EMPTY_READ: i32 = -999;

/// The state of one input source: whether reads block on an empty queue, and
/// the queued values, front first.
#[verifier::ext_equal]
pub struct InputView {
    pub blocking: bool,
    pub queue: Seq<i32>,
}

pub(crate) struct InputState {
    pub(crate) blocking: bool,
    pub(crate) queue: Vec<i32>,
}

impl View for InputState {
    type V = InputView;

    closed spec fn view(&self) -> InputView {
        InputView { blocking: self.blocking, queue: self.queue@ }
    }
}

/// Crate-internal: an input source handle's view is its arena index.
pub(crate) broadcast proof fn input_source_id(s: InputSource)
    ensures
        #[trigger] s.view() == s.id as int,
{
}

/// Crate-internal: an input state's view collects its field views.
pub(crate) broadcast proof fn input_state_view(s: &InputState)
    ensures
        #[trigger] s.view() == (InputView { blocking: s.blocking, queue: s.queue@ }),
{
}

/// A blocking source is readable only while its queue is nonempty; a
/// nonblocking source is always readable.
pub open spec fn input_can_read(iv: InputView) -> bool {
    !iv.blocking || iv.queue.len() > 0
}

/// The value a read returns: the front of the queue, or [`EMPTY_READ`] from an
/// empty nonblocking source.
pub open spec fn input_value(iv: InputView) -> i32 {
    if iv.queue.len() > 0 {
        iv.queue[0]
    } else {
        EMPTY_READ
    }
}

/// The source after a read: the front of the queue is consumed, if any.
pub open spec fn input_after(iv: InputView) -> InputView {
    if iv.queue.len() > 0 {
        InputView { queue: iv.queue.drop_first(), ..iv }
    } else {
        iv
    }
}

/// The bus a fresh input source is connected to: the source is its only
/// endpoint and nobody is pending.
pub open spec fn input_bus(id: usize) -> BusView {
    BusView {
        sources: seq![Endpoint::Input(id)],
        sinks: Seq::empty(),
        readers: Seq::empty(),
        writers: Seq::empty(),
    }
}

fn make(board: &mut Board, is_blocking: bool) -> (r: (InputSource, XBus))
    ensures
        r.0@ == old(board)@.inputs.len(),
        r.1@ == old(board)@.buses.len(),
        final(board)@ == old(board)@.with_input(
            InputView { blocking: is_blocking, queue: Seq::empty() },
        ).with_bus(input_bus((old(board)@.inputs.len()) as usize)),
{
    let id = board.add_input(InputState { blocking: is_blocking, queue: Vec::new() });
    let bus = XBus::new(board);
    board.connect_source(bus, Endpoint::Input(id));
    let src = InputSource { id };
    proof {
        assert(final(board)@ =~~= old(board)@.with_input(
            InputView { blocking: is_blocking, queue: Seq::empty() },
        ).with_bus(input_bus((old(board)@.inputs.len()) as usize)));
    }
    (src, bus)
}

/// Create a blocking source on the board: reading its bus while the queue is
/// empty parks the reader. Returns the source (to call `inject` on) and an
/// XBus with the source connected.
pub fn blocking(board: &mut Board) -> (r: (InputSource, XBus))
    ensures
        r.0@ == old(board)@.inputs.len(),
        r.1@ == old(board)@.buses.len(),
        final(board)@ == old(board)@.with_input(
            InputView { blocking: true, queue: Seq::empty() },
        ).with_bus(input_bus((old(board)@.inputs.len()) as usize)),
{
    make(board, true)
}

/// Create a nonblocking source on the board: reading its bus while the queue
/// is empty produces [`EMPTY_READ`]. Returns the source (to call `inject` on)
/// and an XBus with the source connected.
pub fn nonblocking(board: &mut Board) -> (r: (InputSource, XBus))
    ensures
        r.0@ == old(board)@.inputs.len(),
        r.1@ == old(board)@.buses.len(),
        final(board)@ == old(board)@.with_input(
            InputView { blocking: false, queue: Seq::empty() },
        ).with_bus(input_bus((old(board)@.inputs.len()) as usize)),
{
    make(board, false)
}

impl InputSource {
    /// Add a value to the back of the queue. Unlike controllers' bus writes,
    /// these values may stay queued across timesteps.
    pub fn inject(&self, sched: &mut Scheduler, value: i32)
        requires
            old(sched).inv_ok(),
            self@ < old(sched)@.board.inputs.len(),
        ensures
            final(sched).inv_ok(),
            final(sched).wf() == old(sched).wf(),
            final(sched)@ == (crate::scheduler::SchedulerView {
                board: old(sched)@.board.set_input(
                    self@,
                    InputView {
                        queue: old(sched)@.board.inputs[self@].queue.push(value),
                        ..old(sched)@.board.inputs[self@]
                    },
                ),
                ..old(sched)@
            }),
    {
        sched.input_push(self.id, value)
    }
}

impl InputState {
    pub(crate) fn read_front(&mut self) -> (r: i32)
        ensures
            r == input_value(old(self)@),
            final(self)@ == input_after(old(self)@),
    {
        if self.queue.len() > 0 {
            self.queue.remove(0)
        } else {
            EMPTY_READ
        }
    }

    pub(crate) fn ready(&self) -> (r: bool)
        ensures
            r == input_can_read(self@),
    {
        !self.blocking || self.queue.len() > 0
    }
}

} // verus!
