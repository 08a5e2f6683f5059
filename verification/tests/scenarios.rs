//! End-to-end simulations: controllers, buses and peripherals driven tick by
//! tick through the scheduler.

use shenzhen_sim::board::Board;
use shenzhen_sim::components::expander;
use shenzhen_sim::components::inputsource;
use shenzhen_sim::components::memory;
use shenzhen_sim::components::outputsink;
use shenzhen_sim::controller::{Action, Controller, Event, Regs};
use shenzhen_sim::pin::{Pins, SimplePin};
use shenzhen_sim::scheduler::{sleep, Scheduler, SimError, SleepToken};
use shenzhen_sim::xbus::XBus;

/// Reads `a` from an XBus input and `b` from a simple pin each tick, writes
/// `a + b` on an XBus output and `a - b` on a simple pin, repeating while the
/// input bus stays readable within the tick.
struct Doubler {
    input: XBus,
    output: XBus,
    pin_b: SimplePin,
    pin_diff: SimplePin,
    state: u8,
}

impl Controller for Doubler {
    fn name(&self) -> String {
        "doubler".to_string()
    }

    fn execute(&mut self, _regs: &mut Regs, pins: &mut Pins, event: Event) -> Action {
        match self.state {
            0 => {
                self.state = 1;
                self.input.sleep()
            }
            1 => {
                self.state = 2;
                self.input.read()
            }
            2 => {
                let a = match event {
                    Event::Value(v) => v,
                    _ => panic!("expected a value from the input bus"),
                };
                let b = pins.read(self.pin_b);
                pins.write(self.pin_diff, a - b);
                self.state = 0;
                self.output.write(a + b)
            }
            _ => unreachable!(),
        }
    }
}

fn doubler_run() -> (Vec<Vec<i32>>, Vec<i32>) {
    let mut board = Board::new();
    let pin_b = board.pin(0);
    let pin_diff = board.pin(0);
    let (src, input) = inputsource::blocking(&mut board);
    let (sink, output) = outputsink::new(&mut board);
    let ctrl = Doubler { input, output, pin_b, pin_diff, state: 0 };
    let mut sched = Scheduler::new(board, vec![Box::new(ctrl)]);

    let ticks: Vec<(Vec<i32>, Option<i32>)> = vec![
        (vec![2], Some(3)),
        (vec![10], Some(7)),
        (vec![], None),
        (vec![3, 4, 5], Some(10)),
    ];
    let mut outputs = Vec::new();
    let mut diffs = Vec::new();
    for (values, pin) in ticks {
        for v in values {
            src.inject(&mut sched, v);
        }
        if let Some(b) = pin {
            sched.pin_store(pin_b, b);
        }
        sched.advance().unwrap();
        let mut got = Vec::new();
        sink.queue_into(&mut sched, &mut got);
        outputs.push(got);
        diffs.push(sched.pin_load(pin_diff));
    }
    sched.end();
    (outputs, diffs)
}

#[test]
fn doubler_ticks() {
    let (outputs, diffs) = doubler_run();
    assert_eq!(outputs, vec![vec![5], vec![17], vec![], vec![13, 14, 15]]);
    assert_eq!(diffs, vec![-1, 3, 3, -5]);
}

#[test]
fn doubler_is_deterministic() {
    let first = doubler_run();
    let second = doubler_run();
    assert_eq!(first, second);
}

/// Reads one value from an input XBus and echoes it to an output XBus, once
/// per tick.
struct Echo {
    input: XBus,
    output: XBus,
    state: u8,
}

impl Controller for Echo {
    fn name(&self) -> String {
        "echo".to_string()
    }

    fn execute(&mut self, _regs: &mut Regs, _pins: &mut Pins, event: Event) -> Action {
        match self.state {
            0 => {
                self.state = 1;
                self.input.read()
            }
            1 => {
                let v = match event {
                    Event::Value(v) => v,
                    _ => panic!("expected a value from the input bus"),
                };
                self.state = 2;
                self.output.write(v)
            }
            _ => {
                self.state = 0;
                sleep(1)
            }
        }
    }
}

#[test]
fn echo_three_ticks() {
    let mut board = Board::new();
    let (src, input) = inputsource::blocking(&mut board);
    let (sink, output) = outputsink::new(&mut board);
    let ctrl = Echo { input, output, state: 0 };
    let mut sched = Scheduler::new(board, vec![Box::new(ctrl)]);
    assert_eq!(sched.controller_count(), 1);
    assert_eq!(sched.name_of(0), "echo");
    let mut all = Vec::new();
    for v in [1, 2, 3] {
        src.inject(&mut sched, v);
        sched.advance().unwrap();
        sink.queue_into(&mut sched, &mut all);
    }
    assert_eq!(all, vec![1, 2, 3]);
    sched.end();
}

/// Reads from a bus forever; paired up, two of these deadlock.
struct ReadForever {
    bus: XBus,
}

impl Controller for ReadForever {
    fn name(&self) -> String {
        "read-forever".to_string()
    }

    fn execute(&mut self, _regs: &mut Regs, _pins: &mut Pins, _event: Event) -> Action {
        self.bus.read()
    }
}

#[test]
fn deadlock_two_blocked_readers() {
    let mut board = Board::new();
    let bus_x = XBus::new(&mut board);
    let bus_y = XBus::new(&mut board);
    let a = ReadForever { bus: bus_x };
    let b = ReadForever { bus: bus_y };
    let mut sched = Scheduler::new(board, vec![Box::new(a), Box::new(b)]);
    match sched.advance() {
        Err(SimError::Deadlock { stuck }) => {
            assert_eq!(stuck, vec![0, 1]);
            // The diagnostic's substance: each stuck controller's name and the
            // kind of operation it is stuck in.
            for &i in &stuck {
                assert!(matches!(sched.token_of(i), Some(SleepToken::XBusRead(_))));
                assert!(!sched.name_of(i).is_empty());
            }
        }
        other => panic!("expected a deadlock, got {:?}", other),
    }
    assert!(sched.any_blocking());
    sched.end();
}

/// A body that never sleeps: each iteration ends without parking.
struct NeverSleeps;

impl Controller for NeverSleeps {
    fn name(&self) -> String {
        "never-sleeps".to_string()
    }

    fn execute(&mut self, _regs: &mut Regs, _pins: &mut Pins, _event: Event) -> Action {
        Action::Done
    }
}

#[test]
fn watchdog_stops_non_sleeping_body() {
    let board = Board::new();
    let mut sched = Scheduler::new(board, vec![Box::new(NeverSleeps) as Box<dyn Controller>]);
    match sched.advance() {
        Err(SimError::Watchdog { culprit }) => assert_eq!(culprit, 0),
        other => panic!("expected the watchdog, got {:?}", other),
    }
    sched.end();
}

/// Asks for an operation on a bus of a different board.
struct ForeignBus {
    bus: XBus,
}

impl Controller for ForeignBus {
    fn name(&self) -> String {
        "foreign-bus".to_string()
    }

    fn execute(&mut self, _regs: &mut Regs, _pins: &mut Pins, _event: Event) -> Action {
        self.bus.read()
    }
}

#[test]
fn unknown_bus_is_reported() {
    let mut other_board = Board::new();
    let foreign = XBus::new(&mut other_board);
    let board = Board::new();
    let mut sched = Scheduler::new(board, vec![Box::new(ForeignBus { bus: foreign }) as Box<dyn Controller>]);
    match sched.advance() {
        Err(SimError::UnknownBus { culprit }) => assert_eq!(culprit, 0),
        other => panic!("expected an unknown-bus error, got {:?}", other),
    }
    sched.end();
}

/// Writes 573 through an expander, reads it back, and reports the result.
struct ExpanderTrip {
    bus: XBus,
    output: XBus,
    state: u8,
}

impl Controller for ExpanderTrip {
    fn name(&self) -> String {
        "expander-trip".to_string()
    }

    fn execute(&mut self, _regs: &mut Regs, _pins: &mut Pins, event: Event) -> Action {
        match self.state {
            0 => {
                self.state = 1;
                self.bus.write(573)
            }
            1 => {
                self.state = 2;
                self.bus.read()
            }
            2 => {
                let v = match event {
                    Event::Value(v) => v,
                    _ => panic!("expected a value from the expander"),
                };
                self.state = 3;
                self.output.write(v)
            }
            _ => sleep(1),
        }
    }
}

#[test]
fn expander_round_trip_573() {
    let mut board = Board::new();
    let p0 = board.pin(0);
    let p1 = board.pin(0);
    let p2 = board.pin(0);
    let bus = expander::new(&mut board, Some(p0), Some(p1), Some(p2));
    let (sink, output) = outputsink::new(&mut board);
    let ctrl = ExpanderTrip { bus, output, state: 0 };
    let mut sched = Scheduler::new(board, vec![Box::new(ctrl) as Box<dyn Controller>]);
    sched.advance().unwrap();
    assert_eq!(sched.pin_load(p0), 100);
    assert_eq!(sched.pin_load(p1), 100);
    assert_eq!(sched.pin_load(p2), 100);
    let mut got = Vec::new();
    sink.queue_into(&mut sched, &mut got);
    assert_eq!(got, vec![111]);
    sched.end();
}

/// Writes a fixed burst of values into a RAM data bus, then sleeps.
struct Producer {
    data: XBus,
    state: u8,
}

impl Controller for Producer {
    fn name(&self) -> String {
        "producer".to_string()
    }

    fn execute(&mut self, _regs: &mut Regs, _pins: &mut Pins, _event: Event) -> Action {
        match self.state {
            0 => {
                self.state = 1;
                self.data.write(5)
            }
            1 => {
                self.state = 2;
                self.data.write(7)
            }
            2 => {
                self.state = 3;
                self.data.write(9)
            }
            _ => sleep(1),
        }
    }
}

/// Resets the second RAM pointer, then drains three values to an output.
struct Consumer {
    addr: XBus,
    data: XBus,
    output: XBus,
    state: u8,
    taken: u8,
}

impl Controller for Consumer {
    fn name(&self) -> String {
        "consumer".to_string()
    }

    fn execute(&mut self, _regs: &mut Regs, _pins: &mut Pins, event: Event) -> Action {
        match self.state {
            0 => {
                self.state = 1;
                self.addr.write(0)
            }
            1 => {
                self.state = 2;
                self.data.read()
            }
            2 => {
                let v = match event {
                    Event::Value(v) => v,
                    _ => panic!("expected a value from the RAM"),
                };
                self.taken += 1;
                self.state = if self.taken < 3 { 1 } else { 3 };
                self.output.write(v)
            }
            _ => sleep(1),
        }
    }
}

#[test]
fn ram_queue_producer_consumer() {
    let mut board = Board::new();
    let mem = memory::ram(&mut board);
    let (sink, output) = outputsink::new(&mut board);
    let producer = Producer { data: mem.data0, state: 0 };
    let consumer = Consumer { addr: mem.addr1, data: mem.data1, output, state: 0, taken: 0 };
    let mut sched = Scheduler::new(
        board,
        vec![Box::new(producer) as Box<dyn Controller>, Box::new(consumer) as Box<dyn Controller>],
    );
    sched.advance().unwrap();
    let mut got = Vec::new();
    sink.queue_into(&mut sched, &mut got);
    assert_eq!(got, vec![5, 7, 9]);
    let cells = mem.cells(&sched);
    assert_eq!(&cells[0..3], &[5, 7, 9]);
    assert_eq!(mem.pointer(&sched, 0), 3);
    assert_eq!(mem.pointer(&sched, 1), 3);
    sched.end();
}

/// Sleeps zero steps once, then marks that it woke, then stays quiet.
struct SleepZero {
    output: XBus,
    state: u8,
}

impl Controller for SleepZero {
    fn name(&self) -> String {
        "sleep-zero".to_string()
    }

    fn execute(&mut self, _regs: &mut Regs, _pins: &mut Pins, _event: Event) -> Action {
        match self.state {
            0 => {
                self.state = 1;
                sleep(0)
            }
            1 => {
                self.state = 2;
                self.output.write(1)
            }
            _ => sleep(1),
        }
    }
}

#[test]
fn sleep_zero_wakes_exactly_once() {
    let mut board = Board::new();
    let (sink, output) = outputsink::new(&mut board);
    let ctrl = SleepZero { output, state: 0 };
    let mut sched = Scheduler::new(board, vec![Box::new(ctrl) as Box<dyn Controller>]);
    let mut got = Vec::new();
    sink.queue_into(&mut sched, &mut got);
    assert_eq!(got, Vec::<i32>::new());
    sched.advance().unwrap();
    sink.queue_into(&mut sched, &mut got);
    assert_eq!(got, vec![1]);
    got.clear();
    sched.advance().unwrap();
    sink.queue_into(&mut sched, &mut got);
    assert_eq!(got, Vec::<i32>::new());
    sched.end();
}

/// Writes one value to a bare rendezvous bus and parks until it is taken.
struct OneWrite {
    bus: XBus,
    state: u8,
}

impl Controller for OneWrite {
    fn name(&self) -> String {
        "one-write".to_string()
    }

    fn execute(&mut self, _regs: &mut Regs, _pins: &mut Pins, _event: Event) -> Action {
        match self.state {
            0 => {
                self.state = 1;
                self.bus.write(42)
            }
            _ => sleep(1),
        }
    }
}

/// Sleeps on the bus, then reads it and reports what arrived.
struct SleepThenRead {
    bus: XBus,
    output: XBus,
    state: u8,
}

impl Controller for SleepThenRead {
    fn name(&self) -> String {
        "sleep-then-read".to_string()
    }

    fn execute(&mut self, _regs: &mut Regs, _pins: &mut Pins, event: Event) -> Action {
        match self.state {
            0 => {
                self.state = 1;
                self.bus.sleep()
            }
            1 => {
                self.state = 2;
                self.bus.read()
            }
            2 => {
                let v = match event {
                    Event::Value(v) => v,
                    _ => panic!("expected the pending writer's value"),
                };
                self.state = 3;
                self.output.write(v)
            }
            _ => sleep(1),
        }
    }
}

#[test]
fn pending_writer_satisfies_bus_sleep() {
    let mut board = Board::new();
    let bus = XBus::new(&mut board);
    let (sink, output) = outputsink::new(&mut board);
    let writer = OneWrite { bus, state: 0 };
    let sleeper = SleepThenRead { bus, output, state: 0 };
    let mut sched = Scheduler::new(
        board,
        vec![Box::new(writer) as Box<dyn Controller>, Box::new(sleeper) as Box<dyn Controller>],
    );
    sched.advance().unwrap();
    assert!(sched.registry_full());
    assert!(!sched.any_blocking());
    let mut got = Vec::new();
    sink.queue_into(&mut sched, &mut got);
    assert_eq!(got, vec![42]);
    sched.end();
}

#[test]
fn clock_only_moves_forward() {
    let mut board = Board::new();
    let (_, output) = outputsink::new(&mut board);
    let ctrl = SleepZero { output, state: 0 };
    let mut sched = Scheduler::new(board, vec![Box::new(ctrl) as Box<dyn Controller>]);
    assert_eq!(sched.time(), 0);
    let mut last = 0;
    for _ in 0..5 {
        sched.advance().unwrap();
        assert!(sched.registry_full());
        assert!(!sched.any_blocking());
        assert_eq!(sched.time(), last + 1);
        last = sched.time();
    }
    sched.end();
}

#[test]
fn end_after_deadlock_still_returns() {
    let mut board = Board::new();
    let bus = XBus::new(&mut board);
    let ctrl = ReadForever { bus };
    let mut sched = Scheduler::new(board, vec![Box::new(ctrl) as Box<dyn Controller>]);
    assert!(matches!(sched.advance(), Err(SimError::Deadlock { .. })));
    sched.end();
}

/// Reads once from a nonblocking source and reports what it got.
struct ReadOnceReport {
    input: XBus,
    output: XBus,
    state: u8,
}

impl Controller for ReadOnceReport {
    fn name(&self) -> String {
        "read-once-report".to_string()
    }

    fn execute(&mut self, _regs: &mut Regs, _pins: &mut Pins, event: Event) -> Action {
        match self.state {
            0 => {
                self.state = 1;
                self.input.read()
            }
            1 => {
                let v = match event {
                    Event::Value(v) => v,
                    _ => panic!("expected a value"),
                };
                self.state = 2;
                self.output.write(v)
            }
            _ => sleep(1),
        }
    }
}

#[test]
fn nonblocking_source_gives_sentinel_when_empty() {
    let mut board = Board::new();
    let (_src, input) = inputsource::nonblocking(&mut board);
    let (sink, output) = outputsink::new(&mut board);
    let ctrl = ReadOnceReport { input, output, state: 0 };
    let mut sched = Scheduler::new(board, vec![Box::new(ctrl) as Box<dyn Controller>]);
    sched.advance().unwrap();
    let mut got = Vec::new();
    sink.queue_into(&mut sched, &mut got);
    assert_eq!(got, vec![inputsource::EMPTY_READ]);
    sched.end();
}
