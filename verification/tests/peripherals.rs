//! Direct exercises of the peripherals: ROM reads, RAM pointer wrap-around,
//! and the controller registers.

use shenzhen_sim::board::Board;
use shenzhen_sim::components::memory;
use shenzhen_sim::components::outputsink;
use shenzhen_sim::controller::{Action, Controller, Event, Regs};
use shenzhen_sim::pin::Pins;
use shenzhen_sim::scheduler::{sleep, Scheduler, SimError};
use shenzhen_sim::xbus::XBus;

/// Reads `count` values from a bus and reports each on an output.
struct DrainReader {
    data: XBus,
    output: XBus,
    count: u8,
    taken: u8,
    state: u8,
}

impl Controller for DrainReader {
    fn name(&self) -> String {
        "drain-reader".to_string()
    }

    fn execute(&mut self, _regs: &mut Regs, _pins: &mut Pins, event: Event) -> Action {
        match self.state {
            0 => {
                self.state = 1;
                self.data.read()
            }
            1 => {
                let v = match event {
                    Event::Value(v) => v,
                    _ => panic!("expected a value"),
                };
                self.taken += 1;
                self.state = if self.taken < self.count { 0 } else { 2 };
                self.output.write(v)
            }
            _ => sleep(1),
        }
    }
}

#[test]
fn rom_reads_advance_pointer() {
    let mut board = Board::new();
    let mem = memory::rom(&mut board, [10, 20, 30, 4, 5, 6, 7, 8, 9, 10, 11, 12, 13, 14]);
    let (sink, output) = outputsink::new(&mut board);
    let reader = DrainReader { data: mem.data0, output, count: 3, taken: 0, state: 0 };
    let mut sched = Scheduler::new(board, vec![Box::new(reader) as Box<dyn Controller>]);
    sched.advance().unwrap();
    let mut got = Vec::new();
    sink.queue_into(&mut sched, &mut got);
    assert_eq!(got, vec![10, 20, 30]);
    assert_eq!(mem.pointer(&sched, 0), 3);
    assert_eq!(mem.pointer(&sched, 1), 0);
    sched.end();
}

/// Writes one value to a ROM data bus, which has no sink: it can only park.
struct RomWriter {
    data: XBus,
    state: u8,
}

impl Controller for RomWriter {
    fn name(&self) -> String {
        "rom-writer".to_string()
    }

    fn execute(&mut self, _regs: &mut Regs, _pins: &mut Pins, _event: Event) -> Action {
        match self.state {
            0 => {
                self.state = 1;
                self.data.write(1)
            }
            _ => sleep(1),
        }
    }
}

#[test]
fn rom_write_deadlocks_without_a_reader() {
    let mut board = Board::new();
    let mem = memory::rom(&mut board, [0; 14]);
    let writer = RomWriter { data: mem.data0, state: 0 };
    let mut sched = Scheduler::new(board, vec![Box::new(writer) as Box<dyn Controller>]);
    match sched.advance() {
        Err(SimError::Deadlock { stuck }) => assert_eq!(stuck, vec![0]),
        other => panic!("expected a deadlock, got {:?}", other),
    }
    sched.end();
}

/// Writes a negative address to an address bus, then reads the data bus once.
struct NegativeAddr {
    addr: XBus,
    data: XBus,
    output: XBus,
    state: u8,
}

impl Controller for NegativeAddr {
    fn name(&self) -> String {
        "negative-addr".to_string()
    }

    fn execute(&mut self, _regs: &mut Regs, _pins: &mut Pins, event: Event) -> Action {
        match self.state {
            0 => {
                self.state = 1;
                self.addr.write(-1)
            }
            1 => {
                self.state = 2;
                self.data.read()
            }
            2 => {
                let v = match event {
                    Event::Value(v) => v,
                    _ => panic!("expected a value"),
                };
                self.state = 3;
                self.output.write(v)
            }
            _ => sleep(1),
        }
    }
}

#[test]
fn negative_address_wraps_to_last_cell() {
    let mut board = Board::new();
    let mem = memory::rom(&mut board, [1, 2, 3, 4, 5, 6, 7, 8, 9, 10, 11, 12, 13, 99]);
    let (sink, output) = outputsink::new(&mut board);
    let ctrl = NegativeAddr { addr: mem.addr0, data: mem.data0, output, state: 0 };
    let mut sched = Scheduler::new(board, vec![Box::new(ctrl) as Box<dyn Controller>]);
    sched.advance().unwrap();
    let mut got = Vec::new();
    sink.queue_into(&mut sched, &mut got);
    assert_eq!(got, vec![99]);
    assert_eq!(mem.pointer(&sched, 0), 0);
    sched.end();
}

/// Reads the address bus itself: it reports the current pointer.
struct AddrReader {
    addr: XBus,
    output: XBus,
    state: u8,
}

impl Controller for AddrReader {
    fn name(&self) -> String {
        "addr-reader".to_string()
    }

    fn execute(&mut self, _regs: &mut Regs, _pins: &mut Pins, event: Event) -> Action {
        match self.state {
            0 => {
                self.state = 1;
                self.addr.write(5)
            }
            1 => {
                self.state = 2;
                self.addr.read()
            }
            2 => {
                let v = match event {
                    Event::Value(v) => v,
                    _ => panic!("expected a value"),
                };
                self.state = 3;
                self.output.write(v)
            }
            _ => sleep(1),
        }
    }
}

#[test]
fn address_bus_reads_back_the_pointer() {
    let mut board = Board::new();
    let mem = memory::ram(&mut board);
    let (sink, output) = outputsink::new(&mut board);
    let ctrl = AddrReader { addr: mem.addr1, output, state: 0 };
    let mut sched = Scheduler::new(board, vec![Box::new(ctrl) as Box<dyn Controller>]);
    sched.advance().unwrap();
    let mut got = Vec::new();
    sink.queue_into(&mut sched, &mut got);
    assert_eq!(got, vec![5]);
    sched.end();
}

/// Writes 41 at pointer 0, resets the pointer through the address bus, and
/// reads the cell back.
struct WriteResetRead {
    addr: XBus,
    data: XBus,
    output: XBus,
    state: u8,
}

impl Controller for WriteResetRead {
    fn name(&self) -> String {
        "write-reset-read".to_string()
    }

    fn execute(&mut self, _regs: &mut Regs, _pins: &mut Pins, event: Event) -> Action {
        match self.state {
            0 => {
                self.state = 1;
                self.data.write(41)
            }
            1 => {
                self.state = 2;
                self.addr.write(0)
            }
            2 => {
                self.state = 3;
                self.data.read()
            }
            3 => {
                let v = match event {
                    Event::Value(v) => v,
                    _ => panic!("expected a value"),
                };
                self.state = 4;
                self.output.write(v)
            }
            _ => sleep(1),
        }
    }
}

#[test]
fn ram_write_then_pointer_reset_reads_back() {
    let mut board = Board::new();
    let mem = memory::ram(&mut board);
    let (sink, output) = outputsink::new(&mut board);
    let ctrl = WriteResetRead { addr: mem.addr0, data: mem.data0, output, state: 0 };
    let mut sched = Scheduler::new(board, vec![Box::new(ctrl) as Box<dyn Controller>]);
    sched.advance().unwrap();
    let mut got = Vec::new();
    sink.queue_into(&mut sched, &mut got);
    assert_eq!(got, vec![41]);
    let cells = mem.cells(&sched);
    assert_eq!(cells[0], 41);
    assert_eq!(mem.pointer(&sched, 0), 1);
    sched.end();
}

#[test]
fn dgt_selects_single_digits() {
    let mut regs = Regs { acc: 573, dat: 9 };
    regs.dgt(0);
    assert_eq!(regs.acc, 3);
    regs.acc = 573;
    regs.dgt(1);
    assert_eq!(regs.acc, 7);
    regs.acc = 573;
    regs.dgt(2);
    assert_eq!(regs.acc, 5);
    regs.acc = 573;
    regs.dgt(7);
    assert_eq!(regs.acc, 0);
    assert_eq!(regs.dat, 9);
}

#[test]
fn dgt_keeps_the_sign_of_the_accumulator() {
    let mut regs = Regs { acc: -196, dat: 0 };
    regs.dgt(1);
    assert_eq!(regs.acc, -9);
    regs.acc = -196;
    regs.dgt(0);
    assert_eq!(regs.acc, -6);
    regs.acc = -196;
    regs.dgt(2);
    assert_eq!(regs.acc, -1);
}

#[test]
fn dst_replaces_single_digits() {
    let mut regs = Regs { acc: 567, dat: 1 };
    regs.dst(0, 9);
    assert_eq!(regs.acc, 569);
    regs.acc = 567;
    regs.dst(1, 29);
    assert_eq!(regs.acc, 597);
    regs.acc = 567;
    regs.dst(2, 0);
    assert_eq!(regs.acc, 67);
    regs.acc = 567;
    regs.dst(5, 9);
    assert_eq!(regs.acc, 567);
    assert_eq!(regs.dat, 1);
}
