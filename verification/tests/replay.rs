//! The row replayer: header parsing, number parsing, input application and
//! output checking, including every error kind.

use shenzhen_sim::board::Board;
use shenzhen_sim::components::inputsource;
use shenzhen_sim::components::outputsink;
use shenzhen_sim::controller::{Action, Controller, Event, Regs};
use shenzhen_sim::filerunner::{
    parse_i32, FileRunner, InputBus, OutputBus, RowError, VerifyErrorKind,
};
use shenzhen_sim::pin::{Pins, SimplePin};
use shenzhen_sim::scheduler::{Scheduler, SimError};
use shenzhen_sim::xbus::XBus;

#[test]
fn parse_plain_numbers() {
    assert_eq!(parse_i32(b"123"), Ok(123));
    assert_eq!(parse_i32(b"0"), Ok(0));
    assert_eq!(parse_i32(b"007"), Ok(7));
    assert_eq!(parse_i32(b"+7"), Ok(7));
    assert_eq!(parse_i32(b"-42"), Ok(-42));
}

#[test]
fn parse_extremes_and_overflow() {
    assert_eq!(parse_i32(b"2147483647"), Ok(i32::MAX));
    assert_eq!(parse_i32(b"-2147483648"), Ok(i32::MIN));
    assert_eq!(parse_i32(b"2147483648"), Err(()));
    assert_eq!(parse_i32(b"-2147483649"), Err(()));
    assert_eq!(parse_i32(b"99999999999999999999"), Err(()));
}

#[test]
fn parse_rejects_junk() {
    assert_eq!(parse_i32(b""), Err(()));
    assert_eq!(parse_i32(b"-"), Err(()));
    assert_eq!(parse_i32(b"+"), Err(()));
    assert_eq!(parse_i32(b"1 2"), Err(()));
    assert_eq!(parse_i32(b"12a"), Err(()));
    assert_eq!(parse_i32(b" 1"), Err(()));
}

#[test]
fn header_rejects_unmarked_fields() {
    match FileRunner::new(b"in a, frobnicate, out b") {
        Err(e) => {
            assert!(matches!(e.kind, VerifyErrorKind::BadHeaderField));
            assert_eq!(e.column, 1);
        }
        Ok(_) => panic!("a header field without a marker must be rejected"),
    }
}

/// The doubler body from the scenario suite, driven here through the replayer.
struct Doubler {
    input: XBus,
    output: XBus,
    pin_b: SimplePin,
    pin_diff: SimplePin,
    state: u8,
}

impl Controller for Doubler {
    fn name(&self) -> String {
        "doubler".to_string()
    }

    fn execute(&mut self, _regs: &mut Regs, pins: &mut Pins, event: Event) -> Action {
        match self.state {
            0 => {
                self.state = 1;
                self.input.sleep()
            }
            1 => {
                self.state = 2;
                self.input.read()
            }
            2 => {
                let a = match event {
                    Event::Value(v) => v,
                    _ => panic!("expected a value from the input bus"),
                };
                let b = pins.read(self.pin_b);
                pins.write(self.pin_diff, a - b);
                self.state = 0;
                self.output.write(a + b)
            }
            _ => unreachable!(),
        }
    }
}

fn doubler_setup() -> (Scheduler, Vec<(Vec<u8>, InputBus)>, Vec<(Vec<u8>, OutputBus)>) {
    let mut board = Board::new();
    let pin_b = board.pin(0);
    let pin_diff = board.pin(0);
    let (src, input) = inputsource::blocking(&mut board);
    let (sink, output) = outputsink::new(&mut board);
    let ctrl = Doubler { input, output, pin_b, pin_diff, state: 0 };
    let sched = Scheduler::new(board, vec![Box::new(ctrl) as Box<dyn Controller>]);
    let inputs = vec![
        (b"radio".to_vec(), InputBus::XBus(src)),
        (b"b".to_vec(), InputBus::Simple(pin_b)),
    ];
    let outputs = vec![
        (b"sum".to_vec(), OutputBus::XBus(sink)),
        (b"diff".to_vec(), OutputBus::Simple(pin_diff)),
    ];
    (sched, inputs, outputs)
}

#[test]
fn doubler_replayed_from_rows() {
    let (mut sched, inputs, outputs) = doubler_setup();
    let mut runner = FileRunner::new(b"in radio, in b, out sum, out diff").unwrap();
    let rows: [&[u8]; 4] = [b"2,3,5,-1", b"10,7,17,3", b",,,3", b"3 4 5,10,13 14 15,-5"];
    for row in rows {
        runner.verify(&mut sched, row, &inputs, &outputs).unwrap();
    }
    assert_eq!(runner.timesteps(), 4);
    sched.end();
}

#[test]
fn replay_reports_a_wrong_simple_output() {
    let (mut sched, inputs, outputs) = doubler_setup();
    let mut runner = FileRunner::new(b"in radio, in b, out sum, out diff").unwrap();
    match runner.verify(&mut sched, b"2,3,5,7", &inputs, &outputs) {
        Err(RowError::Data(e)) => {
            assert!(matches!(e.kind, VerifyErrorKind::WrongValue));
            assert_eq!(e.column, 3);
            assert_eq!(e.timestep, 1);
        }
        other => panic!("expected a wrong-value error, got {:?}", other),
    }
    sched.end();
}

#[test]
fn replay_reports_a_wrong_sink_output() {
    let (mut sched, inputs, outputs) = doubler_setup();
    let mut runner = FileRunner::new(b"in radio, in b, out sum, out diff").unwrap();
    match runner.verify(&mut sched, b"2,3,6,-1", &inputs, &outputs) {
        Err(RowError::Data(e)) => {
            assert!(matches!(e.kind, VerifyErrorKind::WrongValue));
            assert_eq!(e.column, 2);
        }
        other => panic!("expected a wrong-value error, got {:?}", other),
    }
    sched.end();
}

#[test]
fn replay_reports_a_wrong_output_count() {
    let (mut sched, inputs, outputs) = doubler_setup();
    let mut runner = FileRunner::new(b"in radio, in b, out sum, out diff").unwrap();
    match runner.verify(&mut sched, b"2,3,5 6,-1", &inputs, &outputs) {
        Err(RowError::Data(e)) => {
            assert!(matches!(e.kind, VerifyErrorKind::WrongCount));
            assert_eq!(e.column, 2);
        }
        other => panic!("expected a wrong-count error, got {:?}", other),
    }
    sched.end();
}

#[test]
fn replay_rejects_multiple_values_for_a_simple_input() {
    let (mut sched, inputs, outputs) = doubler_setup();
    let mut runner = FileRunner::new(b"in radio, in b, out sum, out diff").unwrap();
    match runner.verify(&mut sched, b"2,3 4,5,-1", &inputs, &outputs) {
        Err(RowError::Data(e)) => {
            assert!(matches!(e.kind, VerifyErrorKind::MultipleValuesForSimple));
            assert_eq!(e.column, 1);
        }
        other => panic!("expected a multiple-values error, got {:?}", other),
    }
    sched.end();
}

#[test]
fn replay_rejects_unparsable_numbers() {
    let (mut sched, inputs, outputs) = doubler_setup();
    let mut runner = FileRunner::new(b"in radio, in b, out sum, out diff").unwrap();
    match runner.verify(&mut sched, b"two,3,5,-1", &inputs, &outputs) {
        Err(RowError::Data(e)) => {
            assert!(matches!(e.kind, VerifyErrorKind::UnparsableNumber));
            assert_eq!(e.column, 0);
        }
        other => panic!("expected an unparsable-number error, got {:?}", other),
    }
    sched.end();
}

#[test]
fn replay_rejects_short_rows() {
    let (mut sched, inputs, outputs) = doubler_setup();
    let mut runner = FileRunner::new(b"in radio, in b, out sum, out diff").unwrap();
    match runner.verify(&mut sched, b"2,3", &inputs, &outputs) {
        Err(RowError::Data(e)) => {
            assert!(matches!(e.kind, VerifyErrorKind::ShortRow));
        }
        other => panic!("expected a short-row error, got {:?}", other),
    }
    sched.end();
}

#[test]
fn replay_rejects_missing_bus_names() {
    let (mut sched, inputs, _) = doubler_setup();
    let mut runner = FileRunner::new(b"in radio, in b, out sum, out diff").unwrap();
    let no_outputs: Vec<(Vec<u8>, OutputBus)> = Vec::new();
    match runner.verify(&mut sched, b"2,3,5,-1", &inputs, &no_outputs) {
        Err(RowError::Data(e)) => {
            assert!(matches!(e.kind, VerifyErrorKind::UnknownBusName));
        }
        other => panic!("expected an unknown-bus-name error, got {:?}", other),
    }
    sched.end();
}

#[test]
fn apply_inputs_sets_pins_and_queues_sources() {
    let mut board = Board::new();
    let pin = board.pin(0);
    let (src, _input) = inputsource::blocking(&mut board);
    let mut sched = Scheduler::new(board, Vec::new());
    let runner = FileRunner::new(b"in p, in q").unwrap();
    let inputs = vec![
        (b"p".to_vec(), InputBus::Simple(pin)),
        (b"q".to_vec(), InputBus::XBus(src)),
    ];
    let fields: Vec<Vec<u8>> = vec![b" 5 ".to_vec(), b"8 9".to_vec()];
    runner.apply_inputs(&mut sched, &fields, &inputs).unwrap();
    assert_eq!(sched.pin_load(pin), 5);
    // The queued values surface through a later read; here it is enough that
    // the call succeeded and a bad value in the same place is named exactly.
    let bad: Vec<Vec<u8>> = vec![b"5".to_vec(), b"8 x".to_vec()];
    let e = runner.apply_inputs(&mut sched, &bad, &inputs).unwrap_err();
    assert!(matches!(e.kind, VerifyErrorKind::UnparsableNumber));
    assert_eq!(e.column, 1);
}

#[test]
fn check_outputs_compares_pins_exactly() {
    let mut board = Board::new();
    let pin = board.pin(7);
    let mut sched = Scheduler::new(board, Vec::new());
    let runner = FileRunner::new(b"out p").unwrap();
    let outputs = vec![(b"p".to_vec(), OutputBus::Simple(pin))];
    let good: Vec<Vec<u8>> = vec![b"7".to_vec()];
    runner.check_outputs(&mut sched, &good, &outputs).unwrap();
    let bad: Vec<Vec<u8>> = vec![b"8".to_vec()];
    let e = runner.check_outputs(&mut sched, &bad, &outputs).unwrap_err();
    assert!(matches!(e.kind, VerifyErrorKind::WrongValue));
    assert_eq!(e.column, 0);
}

/// Reads a bus that nothing ever writes.
struct Starved {
    bus: XBus,
}

impl Controller for Starved {
    fn name(&self) -> String {
        "starved".to_string()
    }

    fn execute(&mut self, _regs: &mut Regs, _pins: &mut Pins, _event: Event) -> Action {
        self.bus.read()
    }
}

#[test]
fn replay_surfaces_a_deadlocked_tick() {
    let mut board = Board::new();
    let bus = XBus::new(&mut board);
    let ctrl = Starved { bus };
    let mut sched = Scheduler::new(board, vec![Box::new(ctrl) as Box<dyn Controller>]);
    let mut runner = FileRunner::new(b"in x").unwrap();
    let inputs: Vec<(Vec<u8>, InputBus)> = Vec::new();
    let outputs: Vec<(Vec<u8>, OutputBus)> = Vec::new();
    match runner.verify(&mut sched, b"", &inputs, &outputs) {
        Err(RowError::Sim(SimError::Deadlock { stuck })) => assert_eq!(stuck, vec![0]),
        other => panic!("expected a deadlock, got {:?}", other),
    }
    sched.end();
}
