//! The scheduler: the global clock, the sleeper registry, the per-tick wake
//! loop with its runnability fixed point, and deadlock detection.
//!
//! Every controller strictly alternates between running (its slot in the
//! registry is `None`) and parked (its slot holds the token it waits on). One
//! `advance` call moves the clock one tick and runs every controller whose
//! token is satisfied, to a fixed point, in ascending controller order -- a
//! deterministic tie-break.

use vstd::prelude::*;

use crate::board::{
    board_lens, board_wf, bus_can_read, writer_pending, Board, BoardView, WriteOutcome,
};
use crate::components::inputsource::InputView;
use crate::components::outputsink::OutputView;
use crate::xbus::BusView;
use crate::controller::{Action, Controller, Event, Regs};
use crate::pin::SimplePin;
use crate::xbus::XBus;

verus! {

/// The condition a parked controller waits on.
#[derive(Clone, Copy, Debug)]
pub enum SleepToken {
    /// Wake when the clock reaches this absolute tick.
    Time(u32),
    /// Wake when the bus becomes readable.
    XBusSleep(XBus),
    /// Parked inside a bus read: wake when no longer listed as a pending
    /// reader, the delivered value then waits in the inbox.
    XBusRead(XBus),
    /// Parked inside a bus write: wake when no longer listed as a pending
    /// writer.
    XBusWrite(XBus),
}

/// A blocking token marks a controller stuck inside a bus read or write; a
/// tick may not end while one exists. Clock and bus sleeps are not blocking.
pub open spec fn token_blocking(t: SleepToken) -> bool {
    match t {
        SleepToken::Time(_) => false,
        SleepToken::XBusSleep(_) => false,
        SleepToken::XBusRead(_) => true,
        SleepToken::XBusWrite(_) => true,
    }
}

/// Exec mirror of [`token_blocking`].
pub fn is_blocking(token: &SleepToken) -> (r: bool)
    ensures
        r == token_blocking(*token),
{
    match token {
        SleepToken::Time(_) => false,
        SleepToken::XBusSleep(_) => false,
        SleepToken::XBusRead(_) => true,
        SleepToken::XBusWrite(_) => true,
    }
}

/// For controller code: the action that parks until the given number of
/// timesteps has passed. `sleep(0)` parks until the scheduler next scans its
/// registry.
pub fn sleep(steps: u32) -> (r: Action)
    ensures
        r == Action::Sleep(steps),
{
    Action::Sleep(steps)
}

/// The clock value a relative sleep is rebased to when it is posted at tick
/// `time`: the absolute wakeup tick, saturating at the end of the clock.
pub open spec fn rebase_spec(time: int, n: int) -> int {
    if time + n > u32::MAX {
        u32::MAX as int
    } else {
        time + n
    }
}

/// Everything fatal the scheduler can report.
#[derive(Debug)]
pub enum SimError {
    /// The tick reached its fixed point with controllers still parked inside
    /// bus reads or writes: nobody can ever make progress again. `stuck`
    /// lists exactly the controllers so parked, in ascending order.
    Deadlock { stuck: Vec<usize> },
    /// The sequential stand-in for a bounded-wait timeout. Either this
    /// controller ran [`STEP_BUDGET`] body steps in one waking without
    /// reaching a sleep, or the tick performed [`WAKE_BUDGET`] wakings without
    /// settling, in which case the culprit is the controller that was about to
    /// be woken again.
    Watchdog { culprit: usize },
    /// This controller asked for an operation on a bus that is not on the
    /// scheduler's board.
    UnknownBus { culprit: usize },
}

/// How many body steps one waking of one controller may take without reaching
/// a sleep before the watchdog declares that controller stuck.
pub const STEP_BUDGET: usize = 1000000;

/// How many controller wakings one `advance` may perform before the watchdog
/// declares the tick itself stuck (controllers forever re-waking each other
/// through same-tick rendezvous).
pub const WAKE_BUDGET: usize = 1000000;

/// The scheduler's whole state: the clock, the board, the sleeper registry
/// (one slot per controller; `None` only transiently while that controller
/// runs), the inbox holding values delivered to parked readers, and the
/// controllers' registers.
#[verifier::ext_equal]
pub struct SchedulerView {
    pub time: u32,
    pub board: BoardView,
    pub sleepers: Seq<Option<SleepToken>>,
    pub inbox: Seq<Option<i32>>,
    pub regs: Seq<Regs>,
}

/// The token is `Some(XBusRead(b))`.
pub open spec fn reads_on(tok: Option<SleepToken>, b: int) -> bool {
    match tok {
        Some(SleepToken::XBusRead(xb)) => xb@ == b,
        _ => false,
    }
}

/// The token is `Some(XBusWrite(b))`.
pub open spec fn writes_on(tok: Option<SleepToken>, b: int) -> bool {
    match tok {
        Some(SleepToken::XBusWrite(xb)) => xb@ == b,
        _ => false,
    }
}

/// Any bus the token names is on the board.
pub open spec fn token_valid(bv: BoardView, tok: Option<SleepToken>) -> bool {
    match tok {
        Some(SleepToken::XBusSleep(xb)) => 0 <= xb@ < bv.buses.len(),
        Some(SleepToken::XBusRead(xb)) => 0 <= xb@ < bv.buses.len(),
        Some(SleepToken::XBusWrite(xb)) => 0 <= xb@ < bv.buses.len(),
        _ => true,
    }
}

/// Controller `i` is parked on a blocking token.
pub open spec fn blocking_at(sv: SchedulerView, i: int) -> bool {
    match sv.sleepers[i] {
        Some(t) => token_blocking(t),
        None => false,
    }
}

/// The `k`-th pending reader of bus `b` is a real controller parked on a read
/// of exactly this bus.
pub open spec fn reader_entry_ok(sv: SchedulerView, b: int, k: int) -> bool {
    let i = sv.board.buses[b].readers[k];
    &&& (i as int) < sv.sleepers.len()
    &&& reads_on(sv.sleepers[i as int], b)
}

/// The `k`-th pending writer of bus `b` is a real controller parked on a
/// write to exactly this bus.
pub open spec fn writer_entry_ok(sv: SchedulerView, b: int, k: int) -> bool {
    let i = sv.board.buses[b].writers[k].0;
    &&& (i as int) < sv.sleepers.len()
    &&& writes_on(sv.sleepers[i as int], b)
}

/// The inbox slot of controller `i` matches its token: a parked reader that
/// is no longer listed as pending holds exactly one delivered value there;
/// everyone else holds nothing.
pub open spec fn inbox_ok(sv: SchedulerView, i: int) -> bool {
    match sv.sleepers[i] {
        Some(SleepToken::XBusRead(xb)) => sv.inbox[i] is Some <==> !sv.board.buses[xb@].readers.contains(
            i as usize,
        ),
        _ => sv.inbox[i] is None,
    }
}

/// The scheduler's invariant, maintained by every operation: the board is
/// well-formed, the registries are consistent with the tokens (every pending
/// entry belongs to a controller parked on exactly that operation on exactly
/// that bus, with no controller listed twice), and delivered values sit in the
/// inbox of exactly the woken readers.
pub open spec fn sched_inv(sv: SchedulerView) -> bool {
    let n = sv.sleepers.len() as int;
    &&& n <= usize::MAX
    &&& board_wf(sv.board)
    &&& sv.inbox.len() == n
    &&& sv.regs.len() == n
    &&& forall|i: int| 0 <= i < n ==> token_valid(sv.board, #[trigger] sv.sleepers[i])
    &&& forall|b: int, k: int|
        0 <= b < sv.board.buses.len() && 0 <= k < sv.board.buses[b].readers.len()
            ==> reader_entry_ok(sv, b, k)
    &&& forall|b: int, k: int|
        0 <= b < sv.board.buses.len() && 0 <= k < sv.board.buses[b].writers.len()
            ==> writer_entry_ok(sv, b, k)
    &&& forall|b: int, k1: int, k2: int|
        0 <= b < sv.board.buses.len() && 0 <= k1 < k2 < sv.board.buses[b].readers.len()
            ==> sv.board.buses[b].readers[k1] != sv.board.buses[b].readers[k2]
    &&& forall|b: int, k1: int, k2: int|
        0 <= b < sv.board.buses.len() && 0 <= k1 < k2 < sv.board.buses[b].writers.len()
            ==> (sv.board.buses[b].writers[k1]).0 != (sv.board.buses[b].writers[k2]).0
    &&& forall|i: int| 0 <= i < n ==> inbox_ok(sv, i)
}

/// The tick's fixed point: no controller's sleep condition is satisfied, so
/// scanning the registry again would wake nobody.
pub open spec fn no_runnable(sv: SchedulerView) -> bool {
    forall|i: int| 0 <= i < sv.sleepers.len() ==> !runnable_at(sv, i)
}

/// Every controller is parked: the registry has one entry per controller, the
/// steady state between ticks.
pub open spec fn all_parked(sv: SchedulerView) -> bool {
    forall|i: int| 0 <= i < sv.sleepers.len() ==> (#[trigger] sv.sleepers[i]) is Some
}

/// No controller is parked on a blocking token.
pub open spec fn none_blocking(sv: SchedulerView) -> bool {
    forall|i: int| 0 <= i < sv.sleepers.len() ==> !blocking_at(sv, i)
}

/// Controller `i`'s sleep condition is satisfied: its time has come, its bus
/// became readable, or its pending bus operation was consummated by another
/// party.
pub open spec fn runnable_at(sv: SchedulerView, i: int) -> bool {
    match sv.sleepers[i] {
        Some(SleepToken::Time(t)) => sv.time >= t,
        Some(SleepToken::XBusSleep(xb)) => bus_can_read(sv.board, xb@),
        Some(SleepToken::XBusRead(xb)) => !sv.board.buses[xb@].readers.contains(i as usize),
        Some(SleepToken::XBusWrite(xb)) => !writer_pending(sv.board.buses[xb@], i as usize),
        None => false,
    }
}

/// Coordinates controllers as they advance through time: parks them in the
/// sleeper registry, wakes them as their sleep conditions get fulfilled, and
/// reports deadlocks instead of hanging on them.
pub struct Scheduler {
    time: u32,
    board: Board,
    ctrls: Vec<Box<dyn Controller>>,
    regs: Vec<Regs>,
    sleepers: Vec<Option<SleepToken>>,
    inbox: Vec<Option<i32>>,
}

impl View for Scheduler {
    type V = SchedulerView;

    closed spec fn view(&self) -> SchedulerView {
        SchedulerView {
            time: self.time,
            board: self.board@,
            sleepers: self.sleepers@,
            inbox: self.inbox@,
            regs: self.regs@,
        }
    }
}

impl Scheduler {
    /// Crate-internal well-formedness: the controller list matches the
    /// registry, and the invariant holds of the view.
    pub closed spec fn inv_ok(&self) -> bool {
        &&& self.ctrls@.len() == self.sleepers@.len()
        &&& sched_inv(self@)
    }

    /// The scheduler is well-formed and between ticks: the invariant holds
    /// and every controller is parked.
    pub open spec fn wf(&self) -> bool {
        &&& self.inv_ok()
        &&& all_parked(self@)
    }

    /// The steady-state invariant is part of well-formedness; in particular no
    /// controller name can be pending as a reader and a writer at once.
    pub proof fn lemma_wf_inv(&self)
        requires
            self.wf(),
        ensures
            sched_inv(self@),
            all_parked(self@),
    {
    }

    /// Build a scheduler over a populated board and a set of controllers.
    /// Mirrors the startup handshake: every controller begins parked on a
    /// `Time(0)` sleep, so none of them runs before the first `advance`, the
    /// registry holds one entry per controller, and every pair of registers
    /// starts at `(0, 0)`.
    pub fn new(board: Board, controllers: Vec<Box<dyn Controller>>) -> (s: Scheduler)
        requires
            board_wf(board@),
            forall|b: int|
                0 <= b < board@.buses.len() ==> (#[trigger] board@.buses[b]).readers.len() == 0
                    && board@.buses[b].writers.len() == 0,
        ensures
            s.wf(),
            s@.time == 0,
            s@.board == board@,
            s@.sleepers =~= Seq::new(controllers@.len(), |i: int| Some(SleepToken::Time(0))),
            s@.inbox =~= Seq::new(controllers@.len(), |i: int| None::<i32>),
            s@.regs =~= Seq::new(controllers@.len(), |i: int| Regs { acc: 0, dat: 0 }),
    {
        let n = controllers.len();
        let mut regs: Vec<Regs> = Vec::new();
        let mut sleepers: Vec<Option<SleepToken>> = Vec::new();
        let mut inbox: Vec<Option<i32>> = Vec::new();
        let mut k: usize = 0;
        while k < n
            invariant
                k <= n,
                regs@ =~= Seq::new(k as nat, |i: int| Regs { acc: 0, dat: 0 }),
                sleepers@ =~= Seq::new(k as nat, |i: int| Some(SleepToken::Time(0))),
                inbox@ =~= Seq::new(k as nat, |i: int| None::<i32>),
            decreases n - k,
        {
            regs.push(Regs { acc: 0, dat: 0 });
            sleepers.push(Some(SleepToken::Time(0)));
            inbox.push(None);
            k += 1;
        }
        let s = Scheduler { time: 0, board, ctrls: controllers, regs, sleepers, inbox };
        proof {
            assert forall|i: int| 0 <= i < s@.sleepers.len() implies token_valid(
                s@.board,
                #[trigger] s@.sleepers[i],
            ) by {
                assert(s@.sleepers[i] == Some(SleepToken::Time(0)));
            }
            assert forall|i: int| 0 <= i < s@.sleepers.len() implies inbox_ok(s@, i) by {
                assert(s@.sleepers[i] == Some(SleepToken::Time(0)));
                assert(s@.inbox[i] is None);
            }
        }
        s
    }

    /// The current tick number.
    pub fn time(&self) -> (t: u32)
        ensures
            t == self@.time,
    {
        self.time
    }

    /// How many controllers the scheduler drives.
    pub fn controller_count(&self) -> (n: usize)
        ensures
            n == self@.sleepers.len(),
    {
        self.sleepers.len()
    }

    /// Whether every controller is parked in the registry -- true between
    /// ticks: the registry then has exactly one entry per controller.
    pub fn registry_full(&self) -> (r: bool)
        ensures
            r == all_parked(self@),
    {
        let n = self.sleepers.len();
        let mut i: usize = 0;
        while i < n
            invariant
                i <= n,
                n == self@.sleepers.len(),
                forall|j: int| 0 <= j < i ==> (#[trigger] self@.sleepers[j]) is Some,
            decreases n - i,
        {
            if self.sleepers[i].is_none() {
                return false;
            }
            i += 1;
        }
        true
    }

    /// Whether any controller is parked on a blocking token. After a
    /// successful `advance` this is always false; a deadlock is reported
    /// instead of ever leaving it true.
    pub fn any_blocking(&self) -> (r: bool)
        ensures
            r == !none_blocking(self@),
    {
        let n = self.sleepers.len();
        let mut i: usize = 0;
        while i < n
            invariant
                i <= n,
                n == self@.sleepers.len(),
                forall|j: int| 0 <= j < i ==> !blocking_at(self@, j),
            decreases n - i,
        {
            match self.sleepers[i] {
                Some(tok) => {
                    if is_blocking(&tok) {
                        proof {
                            assert(blocking_at(self@, i as int));
                        }
                        return true;
                    }
                },
                None => {},
            }
            i += 1;
        }
        false
    }

    /// The token controller `i` is parked on, if it is parked. Together with
    /// [`Scheduler::name_of`] this gives a deadlock diagnostic its substance:
    /// the stuck controllers' names and the kind of operation each is stuck in.
    pub fn token_of(&self, i: usize) -> (t: Option<SleepToken>)
        requires
            i < self@.sleepers.len(),
        ensures
            t == self@.sleepers[i as int],
    {
        self.sleepers[i]
    }

    /// The name of controller `i`, for diagnostics.
    pub fn name_of(&self, i: usize) -> (r: String)
        requires
            i < self@.sleepers.len(),
            self.inv_ok(),
    {
        self.ctrls[i].name()
    }

    /// Read a simple pin from outside the simulation.
    pub fn pin_load(&self, p: SimplePin) -> (r: i32)
        requires
            0 <= p@ < self@.board.pins.len(),
        ensures
            r == self@.board.pins[p@],
    {
        self.board.pin_read(p)
    }

    /// Whether controller `i`'s sleep condition is currently satisfied.
    fn check_runnable(&self, i: usize) -> (r: bool)
        requires
            self.inv_ok(),
            i < self@.sleepers.len(),
        ensures
            r == runnable_at(self@, i as int),
    {
        proof {
            assert(token_valid(self@.board, self@.sleepers[i as int]));
        }
        let tok = self.sleepers[i];
        match tok {
            None => false,
            Some(SleepToken::Time(t)) => self.time >= t,
            Some(SleepToken::XBusSleep(b)) => self.board.can_read(b),
            Some(SleepToken::XBusRead(b)) => !self.board.is_read_pending(b, i),
            Some(SleepToken::XBusWrite(b)) => !self.board.is_write_pending(b, i),
        }
    }

    /// Run controller `i`'s body, starting with `ev`, until it parks again or
    /// its per-waking step budget runs out. Every other controller's slot is
    /// untouched; the board changes only through `i`'s own bus operations and
    /// pin writes.
    #[verifier::loop_isolation(false)]
    fn run_controller(&mut self, i: usize, ev: Event) -> (r: Result<(), SimError>)
        requires
            old(self).inv_ok(),
            i < old(self)@.sleepers.len(),
            old(self)@.sleepers[i as int] is None,
            old(self)@.inbox[i as int] is None,
        ensures
            final(self).inv_ok(),
            final(self)@.sleepers.len() == old(self)@.sleepers.len(),
            final(self)@.time == old(self)@.time,
            forall|j: int|
                0 <= j < old(self)@.sleepers.len() && j != i ==> final(self)@.sleepers[j]
                    == old(self)@.sleepers[j],
            r is Ok ==> final(self)@.sleepers[i as int] is Some,
            board_lens(final(self)@.board, old(self)@.board),
            !(r matches Err(SimError::Deadlock { .. })),
            (r matches Err(SimError::Watchdog { culprit }) ==> culprit == i),
            (r matches Err(SimError::UnknownBus { culprit }) ==> culprit == i),
    {
        let mut fuel: usize = STEP_BUDGET;
        let mut event = ev;
        loop
            invariant
                self.inv_ok(),
                i < self@.sleepers.len(),
                self@.sleepers[i as int] is None,
                self@.inbox[i as int] is None,
                self@.sleepers.len() == old(self)@.sleepers.len(),
                self@.time == old(self)@.time,
                forall|j: int|
                    0 <= j < old(self)@.sleepers.len() && j != i ==> self@.sleepers[j]
                        == old(self)@.sleepers[j],
                board_lens(self@.board, old(self)@.board),
            decreases fuel,
        {
            if fuel == 0 {
                return Err(SimError::Watchdog { culprit: i });
            }
            fuel = fuel - 1;
            let ghost pre = self@;
            let act = self.board.run_body(&mut self.ctrls[i], &mut self.regs[i], event);
            proof {
                lemma_board_wf_same_shape(pre.board, self@.board);
                lemma_inv_core(pre, self@);
            }
            proof {
                assert(board_lens(self@.board, pre.board));
            }
            match act {
                Action::Done => {
                    event = Event::Woke;
                },
                Action::Sleep(steps) => {
                    let t = if steps > u32::MAX - self.time {
                        u32::MAX
                    } else {
                        self.time + steps
                    };
                    let ghost pre2 = self@;
                    self.sleepers[i] = Some(SleepToken::Time(t));
                    proof {
                        lemma_park_passive(pre2, self@, i, SleepToken::Time(t));
                    }
                    return Ok(());
                },
                Action::BusSleep(b) => {
                    if b.index() >= self.board.bus_count() {
                        return Err(SimError::UnknownBus { culprit: i });
                    }
                    if self.board.can_read(b) {
                        event = Event::Woke;
                    } else {
                        let ghost pre2 = self@;
                        self.sleepers[i] = Some(SleepToken::XBusSleep(b));
                        proof {
                            lemma_park_passive(pre2, self@, i, SleepToken::XBusSleep(b));
                        }
                        return Ok(());
                    }
                },
                Action::BusRead(b) => {
                    if b.index() >= self.board.bus_count() {
                        return Err(SimError::UnknownBus { culprit: i });
                    }
                    let ghost pre2 = self@;
                    match self.board.bus_read(b, i) {
                        Some(v) => {
                            proof {
                                if pre2.board.buses[b@].writers.len() > 0 {
                                    lemma_consume_writer(pre2, self@, b@);
                                } else {
                                    lemma_inv_core(pre2, self@);
                                }
                            }
                            proof {
                                crate::board::lemma_read_step_lens(pre2.board, b@, i);
                            }
                            event = Event::Value(v);
                        },
                        None => {
                            self.sleepers[i] = Some(SleepToken::XBusRead(b));
                            proof {
                                lemma_park_read(pre2, self@, i, b);
                                crate::board::lemma_read_step_lens(pre2.board, b@, i);
                            }
                            return Ok(());
                        },
                    }
                },
                Action::BusWrite(b, v) => {
                    if b.index() >= self.board.bus_count() {
                        return Err(SimError::UnknownBus { culprit: i });
                    }
                    let ghost pre2 = self@;
                    match self.board.bus_write(b, i, v) {
                        WriteOutcome::Delivered(j) => {
                            proof {
                                assert(reader_entry_ok(pre2, b@, 0));
                            }
                            self.inbox[j] = Some(v);
                            proof {
                                lemma_deliver(pre2, self@, b@, j, v);
                                crate::board::lemma_write_step_lens(pre2.board, b@, i, v);
                            }
                            event = Event::Woke;
                        },
                        WriteOutcome::Sunk => {
                            proof {
                                lemma_inv_core(pre2, self@);
                                crate::board::lemma_write_step_lens(pre2.board, b@, i, v);
                            }
                            event = Event::Woke;
                        },
                        WriteOutcome::Parked => {
                            self.sleepers[i] = Some(SleepToken::XBusWrite(b));
                            proof {
                                lemma_park_write(pre2, self@, i, b, v);
                                crate::board::lemma_write_step_lens(pre2.board, b@, i, v);
                            }
                            return Ok(());
                        },
                    }
                },
            }
        }
    }

    /// Advance the clock one tick, then wake every controller whose sleep
    /// condition is fulfilled, repeatedly, in ascending controller order,
    /// until a full scan wakes nobody. Afterwards every controller is parked
    /// again; if any is still parked inside a bus read or write, nothing can
    /// ever wake it, and the call reports the deadlock with the stuck
    /// controllers instead of succeeding.
    #[verifier::loop_isolation(false)]
    pub fn advance(&mut self) -> (r: Result<(), SimError>)
        requires
            old(self).wf(),
            old(self)@.time < u32::MAX,
        ensures
            final(self).inv_ok(),
            final(self)@.time == old(self)@.time + 1,
            final(self)@.sleepers.len() == old(self)@.sleepers.len(),
            board_lens(final(self)@.board, old(self)@.board),
            r is Ok ==> final(self).wf() && none_blocking(final(self)@) && no_runnable(
                final(self)@,
            ),
            (match r {
                Err(SimError::Deadlock { stuck }) => {
                    &&& final(self).wf()
                    &&& no_runnable(final(self)@)
                    &&& stuck@.len() > 0
                    &&& forall|j: int|
                        0 <= j < final(self)@.sleepers.len() ==> (blocking_at(final(self)@, j)
                            <==> stuck@.contains(j as usize))
                },
                _ => true,
            }),
            ({
                let bumped = SchedulerView { time: (old(self)@.time + 1) as u32, ..old(self)@ };
                no_runnable(bumped) ==> {
                    &&& final(self)@ == bumped
                    &&& (r is Ok <==> none_blocking(old(self)@))
                    &&& (r is Ok || r matches Err(SimError::Deadlock { .. }))
                }
            }),
    {
        let ghost pre = self@;
        self.time = self.time + 1;
        proof {
            lemma_inv_core(pre, self@);
        }
        let ghost bumped = self@;
        proof {
            assert(bumped =~~= (SchedulerView { time: (old(self)@.time + 1) as u32, ..old(self)@ }));
        }
        let n = self.sleepers.len();
        let mut wakes: usize = WAKE_BUDGET;
        let mut progressing: usize = 1;
        while progressing == 1
            invariant
                self.inv_ok(),
                all_parked(self@),
                n == self@.sleepers.len(),
                self@.time == old(self)@.time + 1,
                board_lens(self@.board, old(self)@.board),
                progressing == 0 || progressing == 1,
                progressing == 0 ==> no_runnable(self@),
                no_runnable(bumped) ==> self@ == bumped,
            decreases wakes, progressing,
        {
            let ghost pass_wakes = wakes;
            let mut woke: usize = 0;
            let mut i: usize = 0;
            while i < n
                invariant
                    self.inv_ok(),
                    all_parked(self@),
                    n == self@.sleepers.len(),
                    self@.time == old(self)@.time + 1,
                    board_lens(self@.board, old(self)@.board),
                    i <= n,
                    wakes <= pass_wakes,
                    woke <= i,
                    woke > 0 ==> wakes < pass_wakes,
                    woke == 0 ==> forall|j: int| 0 <= j < i ==> !runnable_at(self@, j),
                    no_runnable(bumped) ==> self@ == bumped && woke == 0,
                decreases n - i,
            {
                if self.check_runnable(i) {
                    proof {
                        if no_runnable(bumped) {
                            assert(runnable_at(bumped, i as int));
                        }
                    }
                    if wakes == 0 {
                        return Err(SimError::Watchdog { culprit: i });
                    }
                    wakes = wakes - 1;
                    let tok = self.sleepers[i].unwrap();
                    let ev = match tok {
                        SleepToken::XBusRead(_) => {
                            proof {
                                assert(inbox_ok(self@, i as int));
                            }
                            let v = self.inbox[i].unwrap();
                            Event::Value(v)
                        },
                        _ => {
                            proof {
                                assert(inbox_ok(self@, i as int));
                            }
                            Event::Woke
                        },
                    };
                    let ghost before = self@;
                    self.sleepers[i] = None;
                    self.inbox[i] = None;
                    proof {
                        lemma_wake(before, self@, i);
                    }
                    match self.run_controller(i, ev) {
                        Ok(()) => {},
                        Err(e) => {
                            return Err(e);
                        },
                    }
                    woke = woke + 1;
                } else {
                }
                i = i + 1;
            }
            if woke == 0 {
                progressing = 0;
            }
        }
        let mut stuck: Vec<usize> = Vec::new();
        let mut i: usize = 0;
        while i < n
            invariant
                self.inv_ok(),
                all_parked(self@),
                no_runnable(self@),
                n == self@.sleepers.len(),
                self@.time == old(self)@.time + 1,
                i <= n,
                forall|j: int| 0 <= j < i ==> (blocking_at(self@, j) <==> stuck@.contains(j as usize)),
                forall|k: int| 0 <= k < stuck@.len() ==> (#[trigger] stuck@[k]) < i,
            decreases n - i,
        {
            let tok = self.sleepers[i].unwrap();
            let ghost prev_stuck = stuck@;
            if is_blocking(&tok) {
                stuck.push(i);
                proof {
                    assert(stuck@[prev_stuck.len() as int] == i);
                    assert forall|j: int| 0 <= j < i + 1 implies (blocking_at(self@, j) <==> stuck@.contains(
                        j as usize,
                    )) by {
                        if j < i {
                            if prev_stuck.contains(j as usize) {
                                let k = choose|k: int|
                                    0 <= k < prev_stuck.len() && prev_stuck[k] == j as usize;
                                assert(stuck@[k] == j as usize);
                            }
                            if stuck@.contains(j as usize) {
                                let k = choose|k: int| 0 <= k < stuck@.len() && stuck@[k] == j as usize;
                                assert(k < prev_stuck.len());
                                assert(prev_stuck.contains(j as usize));
                            }
                        } else {
                            assert(stuck@.contains(i));
                        }
                    }
                }
            } else {
                proof {
                    assert forall|j: int| 0 <= j < i + 1 implies (blocking_at(self@, j) <==> stuck@.contains(
                        j as usize,
                    )) by {
                        if j == i {
                            if stuck@.contains(j as usize) {
                                let k = choose|k: int| 0 <= k < stuck@.len() && stuck@[k] == j as usize;
                                assert(stuck@[k] < i);
                            }
                        }
                    }
                }
            }
            i = i + 1;
        }
        if stuck.len() > 0 {
            proof {
                if no_runnable(bumped) {
                    let j = stuck@[0];
                    assert(stuck@.contains(j));
                    assert(blocking_at(self@, j as int));
                    assert(old(self)@.sleepers[j as int] == self@.sleepers[j as int]);
                    assert(blocking_at(old(self)@, j as int));
                }
            }
            return Err(SimError::Deadlock { stuck });
        }
        proof {
            assert forall|j: int| 0 <= j < self@.sleepers.len() implies !blocking_at(self@, j) by {
                if blocking_at(self@, j) {
                    assert(stuck@.contains(j as usize));
                }
            }
            if no_runnable(bumped) {
                assert forall|t: int|
                    0 <= t < old(self)@.sleepers.len() implies !blocking_at(old(self)@, t) by {
                    assert(!blocking_at(self@, t));
                    assert(old(self)@.sleepers[t] == self@.sleepers[t]);
                }
            }
        }
        Ok(())
    }

    /// Tell the simulation it is over and release everything. In this
    /// sequential model no worker threads exist, so there is nothing to
    /// unblock or join: every controller, parked or stuck, is simply dropped
    /// along with the board.
    pub fn end(self) {
    }

    /// Crate-internal: append a value to an input source's queue.
    pub(crate) fn input_push(&mut self, id: usize, v: i32)
        requires
            old(self).inv_ok(),
            id < old(self)@.board.inputs.len(),
        ensures
            final(self).inv_ok(),
            final(self).wf() == old(self).wf(),
            final(self)@ == (SchedulerView {
                board: old(self)@.board.set_input(
                    id as int,
                    InputView {
                        queue: old(self)@.board.inputs[id as int].queue.push(v),
                        ..old(self)@.board.inputs[id as int]
                    },
                ),
                ..old(self)@
            }),
    {
        let ghost pre = self@;
        self.board.input_push(id, v);
        proof {
            lemma_board_wf_same_shape(pre.board, self@.board);
            lemma_inv_core(pre, self@);
            assert(final(self)@ =~~= (SchedulerView {
                board: pre.board.set_input(
                    id as int,
                    InputView { queue: pre.board.inputs[id as int].queue.push(v), ..pre.board.inputs[id as int] },
                ),
                ..pre
            }));
        }
    }

    /// Crate-internal: drain an output sink's queue onto `dest`.
    pub(crate) fn output_drain(&mut self, id: usize, dest: &mut Vec<i32>)
        requires
            old(self).inv_ok(),
            id < old(self)@.board.outputs.len(),
        ensures
            final(self).inv_ok(),
            final(self).wf() == old(self).wf(),
            final(self)@ == (SchedulerView {
                board: old(self)@.board.set_output(id as int, OutputView { queue: Seq::empty() }),
                ..old(self)@
            }),
            final(dest)@ == old(dest)@ + old(self)@.board.outputs[id as int].queue,
    {
        let ghost pre = self@;
        self.board.output_drain(id, dest);
        proof {
            lemma_board_wf_same_shape(pre.board, self@.board);
            lemma_inv_core(pre, self@);
            assert(final(self)@ =~~= (SchedulerView {
                board: pre.board.set_output(id as int, OutputView { queue: Seq::empty() }),
                ..pre
            }));
        }
    }

    /// Crate-internal: a copy of a memory module's cells.
    pub(crate) fn mem_cells_of(&self, m: usize) -> (r: Vec<i32>)
        requires
            m < self@.board.mems.len(),
        ensures
            r@ == self@.board.mems[m as int].contents,
    {
        self.board.mem_cells(m)
    }

    /// Crate-internal: one of a memory module's pointers.
    pub(crate) fn mem_ptr_of(&self, m: usize, which: usize) -> (r: usize)
        requires
            m < self@.board.mems.len(),
        ensures
            r == crate::components::memory::ptr_of(self@.board.mems[m as int], which),
    {
        self.board.mem_ptr(m, which)
    }

    /// Set a simple pin from outside the simulation, between ticks.
    pub fn pin_store(&mut self, p: SimplePin, v: i32)
        requires
            old(self).inv_ok(),
            0 <= p@ < old(self)@.board.pins.len(),
        ensures
            final(self).inv_ok(),
            final(self).wf() == old(self).wf(),
            final(self)@ == (SchedulerView {
                board: BoardView { pins: old(self)@.board.pins.update(p@, v), ..old(self)@.board },
                ..old(self)@
            }),
    {
        self.board.pin_write(p, v);
        proof {
            lemma_inv_pins_only(old(self)@, final(self)@);
            assert(final(self)@ =~~= (SchedulerView {
                board: BoardView { pins: old(self)@.board.pins.update(p@, v), ..old(self)@.board },
                ..old(self)@
            }));
        }
    }
}

/// Two board states with the same arena shapes, buses included, are equally
/// well-formed: well-formedness never reads a pin value.
proof fn lemma_board_wf_same_shape(a: BoardView, b: BoardView)
    requires
        board_wf(a),
        b.buses == a.buses,
        b.mems == a.mems,
        b.inputs.len() == a.inputs.len(),
        b.outputs.len() == a.outputs.len(),
        b.expanders == a.expanders,
        b.pins.len() == a.pins.len(),
    ensures
        board_wf(b),
{
}

/// The scheduler invariant never reads the clock, the registers, pin values,
/// or peripheral contents: two states agreeing on the buses, the registry and
/// the inbox agree on it, given the second board is well-formed.
proof fn lemma_inv_core(a: SchedulerView, b: SchedulerView)
    requires
        sched_inv(a),
        board_wf(b.board),
        b.board.buses == a.board.buses,
        b.sleepers == a.sleepers,
        b.inbox == a.inbox,
        b.regs.len() == a.regs.len(),
    ensures
        sched_inv(b),
{
    assert forall|i: int| 0 <= i < b.sleepers.len() implies inbox_ok(b, i) by {
        assert(inbox_ok(a, i));
    }
    assert forall|b_: int, k: int|
        0 <= b_ < b.board.buses.len() && 0 <= k < b.board.buses[b_].readers.len() implies reader_entry_ok(
        b,
        b_,
        k,
    ) by {
        assert(reader_entry_ok(a, b_, k));
    }
    assert forall|b_: int, k: int|
        0 <= b_ < b.board.buses.len() && 0 <= k < b.board.buses[b_].writers.len() implies writer_entry_ok(
        b,
        b_,
        k,
    ) by {
        assert(writer_entry_ok(a, b_, k));
    }
}

/// Two scheduler states that differ only in pin values of equal count, the
/// registers and the clock agree on the invariant.
proof fn lemma_inv_pins_only(a: SchedulerView, b: SchedulerView)
    requires
        sched_inv(a),
        b.board.buses == a.board.buses,
        b.board.mems == a.board.mems,
        b.board.inputs == a.board.inputs,
        b.board.outputs == a.board.outputs,
        b.board.expanders == a.board.expanders,
        b.board.pins.len() == a.board.pins.len(),
        b.sleepers == a.sleepers,
        b.inbox == a.inbox,
        b.regs.len() == a.regs.len(),
    ensures
        sched_inv(b),
{
    lemma_board_wf_same_shape(a.board, b.board);
    lemma_inv_core(a, b);
}

/// Parking a running controller on a clock or bus-readable sleep keeps the
/// invariant: such a token pends on nothing.
proof fn lemma_park_passive(a: SchedulerView, b: SchedulerView, i: usize, tok: SleepToken)
    requires
        sched_inv(a),
        (i as int) < a.sleepers.len(),
        a.sleepers[i as int] is None,
        a.inbox[i as int] is None,
        token_valid(a.board, Some(tok)),
        tok matches SleepToken::Time(_) || tok matches SleepToken::XBusSleep(_),
        b.board == a.board,
        b.sleepers == a.sleepers.update(i as int, Some(tok)),
        b.inbox == a.inbox,
        b.regs.len() == a.regs.len(),
    ensures
        sched_inv(b),
{
    assert forall|t: int| 0 <= t < b.sleepers.len() implies inbox_ok(b, t) by {
        assert(inbox_ok(a, t));
    }
    assert forall|b_: int, k: int|
        0 <= b_ < b.board.buses.len() && 0 <= k < b.board.buses[b_].readers.len() implies reader_entry_ok(
        b,
        b_,
        k,
    ) by {
        assert(reader_entry_ok(a, b_, k));
        assert(a.board.buses[b_].readers[k] != i);
    }
    assert forall|b_: int, k: int|
        0 <= b_ < b.board.buses.len() && 0 <= k < b.board.buses[b_].writers.len() implies writer_entry_ok(
        b,
        b_,
        k,
    ) by {
        assert(writer_entry_ok(a, b_, k));
        assert((a.board.buses[b_].writers[k]).0 != i);
    }
}

/// Parking a running controller as a pending reader of a bus keeps the
/// invariant: its slot now holds the matching read token, and its inbox is
/// empty while it waits.
proof fn lemma_park_read(a: SchedulerView, b: SchedulerView, i: usize, xb: XBus)
    requires
        sched_inv(a),
        (i as int) < a.sleepers.len(),
        a.sleepers[i as int] is None,
        a.inbox[i as int] is None,
        0 <= xb@ < a.board.buses.len(),
        b.board == a.board.set_bus(
            xb@,
            BusView {
                readers: a.board.buses[xb@].readers.push(i),
                ..a.board.buses[xb@]
            },
        ),
        board_wf(b.board),
        b.sleepers == a.sleepers.update(i as int, Some(SleepToken::XBusRead(xb))),
        b.inbox == a.inbox,
        b.regs.len() == a.regs.len(),
    ensures
        sched_inv(b),
{
    let ar = a.board.buses[xb@].readers;
    let br = b.board.buses[xb@].readers;
    assert(br == ar.push(i as usize));
    assert forall|b_: int, k: int|
        0 <= b_ < b.board.buses.len() && 0 <= k < b.board.buses[b_].readers.len() implies reader_entry_ok(
        b,
        b_,
        k,
    ) by {
        if b_ == xb@ && k == ar.len() {
            assert(br[k] == i);
        } else {
            assert(reader_entry_ok(a, b_, k));
            assert(a.board.buses[b_].readers[k] != i);
        }
    }
    assert forall|b_: int, k: int|
        0 <= b_ < b.board.buses.len() && 0 <= k < b.board.buses[b_].writers.len() implies writer_entry_ok(
        b,
        b_,
        k,
    ) by {
        assert(writer_entry_ok(a, b_, k));
        assert((a.board.buses[b_].writers[k]).0 != i);
    }
    assert forall|b_: int, k1: int, k2: int|
        0 <= b_ < b.board.buses.len() && 0 <= k1 < k2 < b.board.buses[b_].readers.len()
        implies b.board.buses[b_].readers[k1] != b.board.buses[b_].readers[k2] by {
        if b_ == xb@ && k2 == ar.len() {
            assert(reader_entry_ok(a, b_, k1));
            assert(ar[k1] != i);
        }
    }
    assert forall|t: int| 0 <= t < b.sleepers.len() implies inbox_ok(b, t) by {
        assert(inbox_ok(a, t));
        if t == i as int {
            assert(br[ar.len() as int] == i);
            assert(br.contains(i));
        } else {
            match a.sleepers[t] {
                Some(SleepToken::XBusRead(oxb)) => {
                    if oxb@ == xb@ {
                        assert(reads_on(a.sleepers[t], xb@));
                        if ar.contains(t as usize) {
                            let k = choose|k: int| 0 <= k < ar.len() && ar[k] == t as usize;
                            assert(br[k] == t as usize);
                            assert(br.contains(t as usize));
                        }
                        if br.contains(t as usize) {
                            let k = choose|k: int| 0 <= k < br.len() && br[k] == t as usize;
                            assert(k < ar.len());
                            assert(ar.contains(t as usize));
                        }
                    }
                },
                _ => {},
            }
        }
    }
}

/// Parking a running controller as a pending writer of a bus keeps the
/// invariant.
proof fn lemma_park_write(a: SchedulerView, b: SchedulerView, i: usize, xb: XBus, v: i32)
    requires
        sched_inv(a),
        (i as int) < a.sleepers.len(),
        a.sleepers[i as int] is None,
        a.inbox[i as int] is None,
        0 <= xb@ < a.board.buses.len(),
        b.board == a.board.set_bus(
            xb@,
            BusView {
                writers: a.board.buses[xb@].writers.push((i, v)),
                ..a.board.buses[xb@]
            },
        ),
        board_wf(b.board),
        b.sleepers == a.sleepers.update(i as int, Some(SleepToken::XBusWrite(xb))),
        b.inbox == a.inbox,
        b.regs.len() == a.regs.len(),
    ensures
        sched_inv(b),
{
    let aw = a.board.buses[xb@].writers;
    let bw = b.board.buses[xb@].writers;
    assert(bw == aw.push((i as usize, v)));
    assert forall|b_: int, k: int|
        0 <= b_ < b.board.buses.len() && 0 <= k < b.board.buses[b_].readers.len() implies reader_entry_ok(
        b,
        b_,
        k,
    ) by {
        assert(reader_entry_ok(a, b_, k));
        assert(a.board.buses[b_].readers[k] != i);
    }
    assert forall|b_: int, k: int|
        0 <= b_ < b.board.buses.len() && 0 <= k < b.board.buses[b_].writers.len() implies writer_entry_ok(
        b,
        b_,
        k,
    ) by {
        if b_ == xb@ && k == aw.len() {
            assert(bw[k] == (i, v));
        } else {
            assert(writer_entry_ok(a, b_, k));
            assert((a.board.buses[b_].writers[k]).0 != i);
        }
    }
    assert forall|b_: int, k1: int, k2: int|
        0 <= b_ < b.board.buses.len() && 0 <= k1 < k2 < b.board.buses[b_].writers.len()
        implies (b.board.buses[b_].writers[k1]).0 != (b.board.buses[b_].writers[k2]).0 by {
        if b_ == xb@ {
            assert(bw[k1] == aw[k1]);
            if k2 == aw.len() {
                assert(writer_entry_ok(a, b_, k1));
                assert((aw[k1]).0 != i);
                assert(bw[k2] == (i, v));
            } else {
                assert(bw[k2] == aw[k2]);
                assert((aw[k1]).0 != (aw[k2]).0);
            }
        } else {
            assert(b.board.buses[b_] == a.board.buses[b_]);
            assert((a.board.buses[b_].writers[k1]).0 != (a.board.buses[b_].writers[k2]).0);
        }
    }
    assert forall|t: int| 0 <= t < b.sleepers.len() implies token_valid(
        b.board,
        b.sleepers[t],
    ) by {
        assert(token_valid(a.board, a.sleepers[t]));
    }
    assert forall|t: int| 0 <= t < b.sleepers.len() implies inbox_ok(b, t) by {
        assert(inbox_ok(a, t));
    }
}

/// A running controller consuming the first pending writer of a bus keeps the
/// invariant: the writer it freed stays parked on its write token, merely no
/// longer pending, which is exactly what makes it runnable.
proof fn lemma_consume_writer(a: SchedulerView, b: SchedulerView, bus: int)
    requires
        sched_inv(a),
        0 <= bus < a.board.buses.len(),
        a.board.buses[bus].writers.len() > 0,
        b.board == a.board.set_bus(
            bus,
            BusView {
                writers: a.board.buses[bus].writers.drop_first(),
                ..a.board.buses[bus]
            },
        ),
        board_wf(b.board),
        b.sleepers == a.sleepers,
        b.inbox == a.inbox,
        b.regs.len() == a.regs.len(),
    ensures
        sched_inv(b),
{
    let aw = a.board.buses[bus].writers;
    let bw = b.board.buses[bus].writers;
    assert forall|b_: int, k: int|
        0 <= b_ < b.board.buses.len() && 0 <= k < b.board.buses[b_].readers.len() implies reader_entry_ok(
        b,
        b_,
        k,
    ) by {
        assert(reader_entry_ok(a, b_, k));
    }
    assert forall|b_: int, k: int|
        0 <= b_ < b.board.buses.len() && 0 <= k < b.board.buses[b_].writers.len() implies writer_entry_ok(
        b,
        b_,
        k,
    ) by {
        if b_ == bus {
            assert(bw[k] == aw[k + 1]);
            assert(writer_entry_ok(a, bus, k + 1));
        } else {
            assert(writer_entry_ok(a, b_, k));
        }
    }
    assert forall|b_: int, k1: int, k2: int|
        0 <= b_ < b.board.buses.len() && 0 <= k1 < k2 < b.board.buses[b_].writers.len()
        implies (b.board.buses[b_].writers[k1]).0 != (b.board.buses[b_].writers[k2]).0 by {
        if b_ == bus {
            assert(bw[k1] == aw[k1 + 1]);
            assert(bw[k2] == aw[k2 + 1]);
        }
    }
    assert forall|t: int| 0 <= t < b.sleepers.len() implies inbox_ok(b, t) by {
        assert(inbox_ok(a, t));
    }
}

/// A running controller handing its value to the first pending reader of a bus
/// keeps the invariant: the reader leaves the pending list and the value waits
/// in its inbox until the scheduler wakes it.
proof fn lemma_deliver(a: SchedulerView, b: SchedulerView, bus: int, j: usize, v: i32)
    requires
        sched_inv(a),
        0 <= bus < a.board.buses.len(),
        a.board.buses[bus].readers.len() > 0,
        j == a.board.buses[bus].readers[0],
        b.board == a.board.set_bus(
            bus,
            BusView {
                readers: a.board.buses[bus].readers.drop_first(),
                ..a.board.buses[bus]
            },
        ),
        board_wf(b.board),
        b.sleepers == a.sleepers,
        b.inbox == a.inbox.update(j as int, Some(v)),
        b.regs.len() == a.regs.len(),
    ensures
        sched_inv(b),
{
    let ar = a.board.buses[bus].readers;
    let br = b.board.buses[bus].readers;
    assert(reader_entry_ok(a, bus, 0));
    assert forall|b_: int, k: int|
        0 <= b_ < b.board.buses.len() && 0 <= k < b.board.buses[b_].readers.len() implies reader_entry_ok(
        b,
        b_,
        k,
    ) by {
        if b_ == bus {
            assert(br[k] == ar[k + 1]);
            assert(reader_entry_ok(a, bus, k + 1));
        } else {
            assert(reader_entry_ok(a, b_, k));
        }
    }
    assert forall|b_: int, k: int|
        0 <= b_ < b.board.buses.len() && 0 <= k < b.board.buses[b_].writers.len() implies writer_entry_ok(
        b,
        b_,
        k,
    ) by {
        assert(writer_entry_ok(a, b_, k));
    }
    assert forall|b_: int, k1: int, k2: int|
        0 <= b_ < b.board.buses.len() && 0 <= k1 < k2 < b.board.buses[b_].readers.len()
        implies b.board.buses[b_].readers[k1] != b.board.buses[b_].readers[k2] by {
        if b_ == bus {
            assert(br[k1] == ar[k1 + 1]);
            assert(br[k2] == ar[k2 + 1]);
            assert(ar[k1 + 1] != ar[k2 + 1]);
        } else {
            assert(b.board.buses[b_] == a.board.buses[b_]);
            assert(a.board.buses[b_].readers[k1] != a.board.buses[b_].readers[k2]);
        }
    }
    assert forall|b_: int, k1: int, k2: int|
        0 <= b_ < b.board.buses.len() && 0 <= k1 < k2 < b.board.buses[b_].writers.len()
        implies (b.board.buses[b_].writers[k1]).0 != (b.board.buses[b_].writers[k2]).0 by {
        assert(b.board.buses[b_].writers == a.board.buses[b_].writers);
        assert((a.board.buses[b_].writers[k1]).0 != (a.board.buses[b_].writers[k2]).0);
    }
    assert forall|t: int| 0 <= t < b.sleepers.len() implies token_valid(
        b.board,
        b.sleepers[t],
    ) by {
        assert(token_valid(a.board, a.sleepers[t]));
    }
    assert forall|t: int| 0 <= t < b.sleepers.len() implies inbox_ok(b, t) by {
        assert(inbox_ok(a, t));
        if t == j as int {
            assert(reads_on(a.sleepers[t], bus));
            assert forall|k: int| 0 <= k < br.len() implies br[k] != j by {
                assert(br[k] == ar[k + 1]);
                assert(ar[k + 1] != ar[0]);
            }
            assert(!br.contains(j));
        } else {
            match a.sleepers[t] {
                Some(SleepToken::XBusRead(oxb)) => {
                    if oxb@ == bus {
                        if ar.contains(t as usize) {
                            let k = choose|k: int| 0 <= k < ar.len() && ar[k] == t as usize;
                            assert(k != 0);
                            assert(br[k - 1] == t as usize);
                            assert(br.contains(t as usize));
                        }
                        if br.contains(t as usize) {
                            let k = choose|k: int| 0 <= k < br.len() && br[k] == t as usize;
                            assert(ar[k + 1] == t as usize);
                            assert(ar.contains(t as usize));
                        }
                    }
                },
                _ => {},
            }
        }
    }
}

/// Waking a runnable parked controller -- clearing its slot and taking its
/// delivered value, if any -- keeps the invariant.
proof fn lemma_wake(a: SchedulerView, b: SchedulerView, i: usize)
    requires
        sched_inv(a),
        (i as int) < a.sleepers.len(),
        a.sleepers[i as int] is Some,
        runnable_at(a, i as int),
        b.board == a.board,
        b.sleepers == a.sleepers.update(i as int, None),
        b.inbox == a.inbox.update(i as int, None),
        b.regs.len() == a.regs.len(),
    ensures
        sched_inv(b),
        b.inbox[i as int] is None,
{
    assert forall|b_: int, k: int|
        0 <= b_ < b.board.buses.len() && 0 <= k < b.board.buses[b_].readers.len() implies reader_entry_ok(
        b,
        b_,
        k,
    ) by {
        assert(reader_entry_ok(a, b_, k));
        let t = a.board.buses[b_].readers[k];
        if t == i {
            assert(reads_on(a.sleepers[i as int], b_));
            assert(a.board.buses[b_].readers.contains(i));
            assert(!runnable_at(a, i as int));
        }
    }
    assert forall|b_: int, k: int|
        0 <= b_ < b.board.buses.len() && 0 <= k < b.board.buses[b_].writers.len() implies writer_entry_ok(
        b,
        b_,
        k,
    ) by {
        assert(writer_entry_ok(a, b_, k));
        let t = (a.board.buses[b_].writers[k]).0;
        if t == i {
            assert(writes_on(a.sleepers[i as int], b_));
            assert(writer_pending(a.board.buses[b_], i));
            assert(!runnable_at(a, i as int));
        }
    }
    assert forall|t: int| 0 <= t < b.sleepers.len() implies inbox_ok(b, t) by {
        assert(inbox_ok(a, t));
    }
}

} // verus!
