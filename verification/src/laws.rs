//! System-wide laws: properties of the rendezvous protocol, the registry and
//! the peripherals that hold in every reachable state, stated and proved over
//! the same spec functions the components' contracts use.

use vstd::prelude::*;

use crate::board::{
    bus_can_read, first_ready_from, read_step, sink_after, source_can_read, write_step,
    BoardView, WriteOutcome,
};
use crate::components::expander::{
    abs_val, conn_valid, read_value_spec, write_pins_spec, ExpanderConn,
};
use crate::components::memory::{
    addr_write_after, data_read_value, data_write_after, mem_wf, ptr_of, wrap_index, MemView,
};
use crate::scheduler::{
    reader_entry_ok, rebase_spec, sched_inv, writer_entry_ok, SchedulerView,
};
use crate::xbus::Endpoint;

verus! {

/// No controller stands in a pending-readers list and a pending-writers list
/// at once, on any bus or pair of buses: being parked on one token at a time,
/// it can pend on at most one operation.
pub proof fn lemma_no_double_pending(
    sv: SchedulerView,
    b1: int,
    k1: int,
    b2: int,
    k2: int,
)
    requires
        sched_inv(sv),
        0 <= b1 < sv.board.buses.len(),
        0 <= k1 < sv.board.buses[b1].readers.len(),
        0 <= b2 < sv.board.buses.len(),
        0 <= k2 < sv.board.buses[b2].writers.len(),
    ensures
        sv.board.buses[b1].readers[k1] != (sv.board.buses[b2].writers[k2]).0,
{
    assert(reader_entry_ok(sv, b1, k1));
    assert(writer_entry_ok(sv, b2, k2));
}

/// Every value written to a bus reaches exactly one place, and which place is
/// determined by the bus state alone: the earliest-registered pending reader
/// when one waits; else the first connected sink; else the write parks and the
/// value stays with the writer for a future reader. No case disturbs the other
/// two channels.
pub proof fn lemma_write_delivers_exactly_once(bv: BoardView, b: int, ctrl: usize, v: i32)
    requires
        0 <= b < bv.buses.len(),
    ensures
        ({
            let (out, after) = write_step(bv, b, ctrl, v);
            match out {
                WriteOutcome::Delivered(j) => {
                    &&& bv.buses[b].readers.len() > 0
                    &&& j == bv.buses[b].readers[0]
                    &&& after.buses[b].readers == bv.buses[b].readers.drop_first()
                    &&& after.buses[b].writers == bv.buses[b].writers
                    &&& after.outputs == bv.outputs
                },
                WriteOutcome::Sunk => {
                    &&& bv.buses[b].readers.len() == 0
                    &&& bv.buses[b].sinks.len() > 0
                    &&& after == sink_after(bv, bv.buses[b].sinks[0], v)
                    &&& after.buses == bv.buses
                },
                WriteOutcome::Parked => {
                    &&& bv.buses[b].readers.len() == 0
                    &&& bv.buses[b].sinks.len() == 0
                    &&& after.buses[b].writers == bv.buses[b].writers.push((ctrl, v))
                    &&& after.buses[b].readers == bv.buses[b].readers
                    &&& after.outputs == bv.outputs
                },
            }
        }),
{
}

/// A delivered value is never lost: a controller parked on a bus read that is
/// no longer listed as pending was handed exactly one value, which waits in
/// its inbox until the scheduler resumes it.
pub proof fn lemma_delivered_value_waits(sv: SchedulerView, i: int, b: int)
    requires
        sched_inv(sv),
        0 <= i < sv.sleepers.len(),
        crate::scheduler::reads_on(sv.sleepers[i], b),
        0 <= b < sv.board.buses.len(),
        !sv.board.buses[b].readers.contains(i as usize),
    ensures
        sv.inbox[i] is Some,
{
    assert(crate::scheduler::inbox_ok(sv, i));
}

/// The deterministic tie-break of multi-waiter resolution: a read consumes the
/// earliest-registered pending writer and leaves the rest in order.
pub proof fn lemma_read_takes_first_writer(bv: BoardView, b: int, ctrl: usize)
    requires
        0 <= b < bv.buses.len(),
        bv.buses[b].writers.len() > 0,
    ensures
        read_step(bv, b, ctrl).0 == Some((bv.buses[b].writers[0]).1 as int),
        read_step(bv, b, ctrl).1.buses[b].writers == bv.buses[b].writers.drop_first(),
{
}

/// The deterministic source policy: when a read falls through to the connected
/// sources, the first-registered readable source wins, and a source is only
/// consulted when every source registered before it is unreadable.
pub proof fn lemma_first_source_wins(bv: BoardView, srcs: Seq<Endpoint>, lo: int)
    requires
        0 <= lo <= srcs.len(),
    ensures
        ({
            let k = first_ready_from(bv, srcs, lo);
            &&& (k == -1 <==> forall|j: int|
                lo <= j < srcs.len() ==> !source_can_read(bv, #[trigger] srcs[j]))
            &&& (k >= 0 ==> lo <= k < srcs.len() && source_can_read(bv, srcs[k]) && forall|j: int|
                lo <= j < k ==> !source_can_read(bv, #[trigger] srcs[j]))
        }),
    decreases srcs.len() - lo,
{
    if lo < srcs.len() && !source_can_read(bv, srcs[lo]) {
        lemma_first_source_wins(bv, srcs, lo + 1);
    }
}

/// A bus with a pending writer is readable, whatever its sources say: a later
/// bus sleep on it completes at once instead of parking.
pub proof fn lemma_pending_writer_readable(bv: BoardView, b: int)
    requires
        0 <= b < bv.buses.len(),
        bv.buses[b].writers.len() > 0,
    ensures
        bus_can_read(bv, b),
{
}

/// A timed sleep of zero steps rebased at tick `t` wakes at tick `t` itself:
/// it parks its controller exactly until the scheduler next scans the
/// registry, and no rebased wakeup tick ever lies in the past of a later tick.
pub proof fn lemma_sleep_zero_immediate(t: u32)
    ensures
        rebase_spec(t as int, 0) == t as int,
        forall|n: int| 0 <= n ==> rebase_spec(t as int, n) >= t,
{
}

/// The nonzero-digit projection: what survives a trip through an expander.
/// Each decimal place keeps a 1 exactly where the written value's magnitude
/// occupied it (the hundreds place for any magnitude of 100 or more).
pub open spec fn nonzero_digit_projection(v: int) -> int {
    let a = abs_val(v);
    100 * (if a >= 100 {
        1int
    } else {
        0int
    }) + 10 * (if a % 100 >= 10 {
        1int
    } else {
        0int
    }) + (if a % 10 >= 1 {
        1int
    } else {
        0int
    })
}

/// Writing a value through an expander onto three distinct pins and reading it
/// back yields the original value modulo the nonzero-digit projection.
pub proof fn lemma_expander_round_trip(pins: Seq<i32>, e: ExpanderConn, v: int)
    requires
        conn_valid(e, pins.len() as int),
        e.p0 is Some,
        e.p1 is Some,
        e.p2 is Some,
        e.p0.unwrap()@ != e.p1.unwrap()@,
        e.p0.unwrap()@ != e.p2.unwrap()@,
        e.p1.unwrap()@ != e.p2.unwrap()@,
    ensures
        read_value_spec(write_pins_spec(pins, e, v), e) == nonzero_digit_projection(v),
{
    let written = write_pins_spec(pins, e, v);
    assert(written[e.p2.unwrap()@] == crate::components::expander::pin_level(v, 2));
    assert(written[e.p1.unwrap()@] == crate::components::expander::pin_level(v, 1));
    assert(written[e.p0.unwrap()@] == crate::components::expander::pin_level(v, 0));
}

/// A RAM write at pointer `p`, a pointer reset to `p`, and a read back return
/// the written value.
pub proof fn lemma_ram_write_then_read(m: MemView, which: usize, v: i32)
    requires
        mem_wf(m),
        which < 2,
    ensures
        ({
            let p = ptr_of(m, which);
            let written = data_write_after(m, which, v);
            let reset = addr_write_after(written, which, p as i32);
            data_read_value(reset, which) == v
        }),
{
}

/// Every data bus operation advances its pointer by exactly one, modulo the
/// cell count.
pub proof fn lemma_write_advances_pointer(m: MemView, which: usize, v: i32)
    requires
        mem_wf(m),
    ensures
        ptr_of(data_write_after(m, which, v), which) as int == wrap_index(ptr_of(m, which) + 1),
{
}

} // verus!
