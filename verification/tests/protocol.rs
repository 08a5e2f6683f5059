//! Rendezvous protocol specifics: resolution order between pending writers
//! and sources, wake-all bus sleeps, and the expander's digit rules.

use shenzhen_sim::board::Board;
use shenzhen_sim::components::expander;
use shenzhen_sim::components::inputsource;
use shenzhen_sim::components::outputsink;
use shenzhen_sim::controller::{Action, Controller, Event, Regs};
use shenzhen_sim::pin::Pins;
use shenzhen_sim::scheduler::{sleep, Scheduler};
use shenzhen_sim::xbus::XBus;

/// Writes one fixed value to a bus, then sleeps.
struct WriteOnce {
    bus: XBus,
    value: i32,
    state: u8,
}

impl Controller for WriteOnce {
    fn name(&self) -> String {
        "write-once".to_string()
    }

    fn execute(&mut self, _regs: &mut Regs, _pins: &mut Pins, _event: Event) -> Action {
        match self.state {
            0 => {
                self.state = 1;
                self.bus.write(self.value)
            }
            _ => sleep(1),
        }
    }
}

/// Reads one value from a bus and reports it, then sleeps.
struct ReadOnce {
    bus: XBus,
    output: XBus,
    state: u8,
}

impl Controller for ReadOnce {
    fn name(&self) -> String {
        "read-once".to_string()
    }

    fn execute(&mut self, _regs: &mut Regs, _pins: &mut Pins, event: Event) -> Action {
        match self.state {
            0 => {
                self.state = 1;
                self.bus.read()
            }
            1 => {
                let v = match event {
                    Event::Value(v) => v,
                    _ => panic!("expected a value"),
                };
                self.state = 2;
                self.output.write(v)
            }
            _ => sleep(1),
        }
    }
}

#[test]
fn pending_writer_beats_a_ready_source() {
    // The bus has both a ready source (value 7 queued) and, by the time the
    // reader runs, a pending writer (value 42): the writer wins.
    let mut board = Board::new();
    let (src, bus) = inputsource::blocking(&mut board);
    let (sink, output) = outputsink::new(&mut board);
    let writer = WriteOnce { bus, value: 42, state: 0 };
    let reader = ReadOnce { bus, output, state: 0 };
    let mut sched = Scheduler::new(
        board,
        vec![Box::new(writer) as Box<dyn Controller>, Box::new(reader) as Box<dyn Controller>],
    );
    src.inject(&mut sched, 7);
    sched.advance().unwrap();
    let mut got = Vec::new();
    sink.queue_into(&mut sched, &mut got);
    assert_eq!(got, vec![42]);
    sched.end();
}

/// Sleeps on the bus, reads when woken, reports, then sleeps on the bus again.
struct SleepReadLoop {
    bus: XBus,
    output: XBus,
    state: u8,
}

impl Controller for SleepReadLoop {
    fn name(&self) -> String {
        "sleep-read-loop".to_string()
    }

    fn execute(&mut self, _regs: &mut Regs, _pins: &mut Pins, event: Event) -> Action {
        match self.state {
            0 => {
                self.state = 1;
                self.bus.sleep()
            }
            1 => {
                self.state = 2;
                self.bus.read()
            }
            _ => {
                let v = match event {
                    Event::Value(v) => v,
                    _ => panic!("expected a value"),
                };
                self.state = 0;
                self.output.write(v)
            }
        }
    }
}

#[test]
fn one_value_satisfies_exactly_one_bus_sleeper() {
    // Two controllers sleep on the same bus; a single value arrives. The
    // registry walk runs in ascending controller order, so the first sleeper
    // consumes the value; the second finds the bus drained and stays parked
    // on its harmless bus sleep. Nothing blocks and the tick ends normally.
    let mut board = Board::new();
    let bus = XBus::new(&mut board);
    let (sink_a, out_a) = outputsink::new(&mut board);
    let (sink_b, out_b) = outputsink::new(&mut board);
    let sleeper_a = SleepReadLoop { bus, output: out_a, state: 0 };
    let sleeper_b = SleepReadLoop { bus, output: out_b, state: 0 };
    let writer1 = WriteOnce { bus, value: 5, state: 0 };
    let mut sched = Scheduler::new(
        board,
        vec![
            Box::new(sleeper_a) as Box<dyn Controller>,
            Box::new(sleeper_b) as Box<dyn Controller>,
            Box::new(writer1) as Box<dyn Controller>,
        ],
    );
    sched.advance().unwrap();
    assert!(sched.registry_full());
    assert!(!sched.any_blocking());
    let mut got_a = Vec::new();
    sink_a.queue_into(&mut sched, &mut got_a);
    let mut got_b = Vec::new();
    sink_b.queue_into(&mut sched, &mut got_b);
    assert_eq!(got_a, vec![5]);
    assert_eq!(got_b, Vec::<i32>::new());
    sched.end();
}

#[test]
fn expander_ignores_sign_and_high_values() {
    let mut board = Board::new();
    let p0 = board.pin(0);
    let p1 = board.pin(0);
    let p2 = board.pin(0);
    let bus = expander::new(&mut board, Some(p0), Some(p1), Some(p2));
    let writer = WriteOnce { bus, value: -1000, state: 0 };
    let mut sched = Scheduler::new(board, vec![Box::new(writer) as Box<dyn Controller>]);
    sched.advance().unwrap();
    // |-1000| >= 100 raises the hundreds pin; its tens and ones digits are 0.
    assert_eq!(sched.pin_load(p2), 100);
    assert_eq!(sched.pin_load(p1), 0);
    assert_eq!(sched.pin_load(p0), 0);
    sched.end();
}

#[test]
fn expander_reads_half_high_pins_as_ones() {
    let mut board = Board::new();
    let p0 = board.pin(50);
    let p1 = board.pin(49);
    let p2 = board.pin(100);
    let bus = expander::new(&mut board, Some(p0), Some(p1), Some(p2));
    let (sink, output) = outputsink::new(&mut board);
    let reader = ReadOnce { bus, output, state: 0 };
    let mut sched = Scheduler::new(board, vec![Box::new(reader) as Box<dyn Controller>]);
    sched.advance().unwrap();
    let mut got = Vec::new();
    sink.queue_into(&mut sched, &mut got);
    assert_eq!(got, vec![101]);
    sched.end();
}
