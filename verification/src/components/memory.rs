//! RAM and ROM modules: 14 cells and two independent pointers, each pointer
//! paired with an address bus and a data bus.

use vstd::prelude::*;

use crate::board::Board;
use crate::scheduler::Scheduler;
use crate::xbus::{BusView, Endpoint, XBus};

verus! {

/// Number of cells in a memory module.
pub const MEM_CELLS: usize = 14;

/// A memory index wrapped into `[0, 14)` with a true modulo, so negative
/// addresses wrap around from the top.
pub open spec fn wrap_index(v: int) -> int {
    v % 14
}

/// Wrap a possibly negative address into `[0, 14)`.
pub(crate) fn adjust_index(index: i32) -> (r: usize)
    ensures
        r as int == wrap_index(index as int),
{
    let m = index % 14;
    (if m < 0 {
        m + 14
    } else {
        m
    }) as usize
}

/// The state of one memory module: the cell contents and the two pointers.
#[verifier::ext_equal]
pub struct MemView {
    pub contents: Seq<i32>,
    pub ptr0: usize,
    pub ptr1: usize,
}

pub(crate) struct MemState {
    pub(crate) contents: Vec<i32>,
    pub(crate) ptr0: usize,
    pub(crate) ptr1: usize,
}

impl View for MemState {
    type V = MemView;

    closed spec fn view(&self) -> MemView {
        MemView { contents: self.contents@, ptr0: self.ptr0, ptr1: self.ptr1 }
    }
}

/// Crate-internal: a memory state's view collects its field views.
pub(crate) broadcast proof fn mem_state_view(m: &MemState)
    ensures
        #[trigger] m.view() == (MemView { contents: m.contents@, ptr0: m.ptr0, ptr1: m.ptr1 }),
{
}

/// Well-formedness of a memory module: 14 cells, both pointers in range.
pub open spec fn mem_wf(m: MemView) -> bool {
    &&& m.contents.len() == 14
    &&& m.ptr0 < 14
    &&& m.ptr1 < 14
}

/// The pointer selected by `which` (0 or 1).
pub open spec fn ptr_of(m: MemView, which: usize) -> usize {
    if which == 0 {
        m.ptr0
    } else {
        m.ptr1
    }
}

/// `m` with the selected pointer replaced.
pub open spec fn with_ptr(m: MemView, which: usize, p: usize) -> MemView {
    if which == 0 {
        MemView { ptr0: p, ..m }
    } else {
        MemView { ptr1: p, ..m }
    }
}

/// The value a data bus read returns: the cell under the selected pointer.
pub open spec fn data_read_value(m: MemView, which: usize) -> i32 {
    m.contents[ptr_of(m, which) as int]
}

/// The module after a data bus read: the selected pointer advances by one,
/// wrapping past the last cell.
pub open spec fn data_read_after(m: MemView, which: usize) -> MemView {
    with_ptr(m, which, (wrap_index(ptr_of(m, which) + 1)) as usize)
}

/// The module after a data bus write: the cell under the selected pointer is
/// replaced and the pointer advances by one, wrapping past the last cell.
pub open spec fn data_write_after(m: MemView, which: usize, v: i32) -> MemView {
    let p = ptr_of(m, which);
    with_ptr(
        MemView { contents: m.contents.update(p as int, v), ..m },
        which,
        (wrap_index(p + 1)) as usize,
    )
}

/// The module after an address bus write: the selected pointer is set to the
/// written value wrapped into range. Reads on an address bus return the
/// pointer and change nothing.
pub open spec fn addr_write_after(m: MemView, which: usize, v: i32) -> MemView {
    with_ptr(m, which, wrap_index(v as int) as usize)
}

/// An address bus of module `m`, pointer `w`: the pointer pin is both source
/// and sink, so the bus reads and writes the pointer.
pub open spec fn addr_bus(m: usize, w: usize) -> BusView {
    BusView {
        sources: seq![Endpoint::MemAddr(m, w)],
        sinks: seq![Endpoint::MemAddr(m, w)],
        readers: Seq::empty(),
        writers: Seq::empty(),
    }
}

/// A ROM data bus of module `m`, pointer `w`: a source only, so writes to it
/// park forever unless something else reads the same bus.
pub open spec fn rom_data_bus(m: usize, w: usize) -> BusView {
    BusView {
        sources: seq![Endpoint::MemData(m, w)],
        sinks: Seq::empty(),
        readers: Seq::empty(),
        writers: Seq::empty(),
    }
}

/// A RAM data bus of module `m`, pointer `w`: both source and sink, so the
/// bus reads and writes the cells.
pub open spec fn ram_data_bus(m: usize, w: usize) -> BusView {
    BusView {
        sources: seq![Endpoint::MemData(m, w)],
        sinks: seq![Endpoint::MemData(m, w)],
        readers: Seq::empty(),
        writers: Seq::empty(),
    }
}

/// Represents a RAM or ROM module.
///
/// Internally there is an array of 14 cells and two independent pointers into
/// it. `addr0` and `addr1` read and write those two pointers. `data0` and
/// `data1` read the cell at the respective pointer, and in RAMs also write it.
/// Any read from, or write to, a data bus advances the corresponding pointer
/// by one, wrapping to zero past the last cell.
pub struct Memory {
    pub addr0: XBus,
    pub addr1: XBus,
    pub data0: XBus,
    pub data1: XBus,
    /// The module's index into the board's memory arena; the handle's view.
    pub mem: usize,
}

impl View for Memory {
    type V = int;

    open spec fn view(&self) -> int {
        self.mem as int
    }
}

impl Memory {
    /// A copy of the module's 14 cells, for inspection between ticks.
    pub fn cells(&self, sched: &Scheduler) -> (r: Vec<i32>)
        requires
            0 <= self@ < sched@.board.mems.len(),
        ensures
            r@ == sched@.board.mems[self@].contents,
    {
        sched.mem_cells_of(self.mem)
    }

    /// The current position of pointer 0 or 1, for inspection between ticks.
    pub fn pointer(&self, sched: &Scheduler, which: usize) -> (r: usize)
        requires
            0 <= self@ < sched@.board.mems.len(),
        ensures
            r == ptr_of(sched@.board.mems[self@], which),
    {
        sched.mem_ptr_of(self.mem, which)
    }
}

fn fresh_mem(board: &mut Board, contents: Vec<i32>) -> (r: (usize, XBus, XBus, XBus, XBus))
    requires
        contents@.len() == 14,
    ensures
        r.0 == old(board)@.mems.len(),
        r.1@ == old(board)@.buses.len(),
        r.2@ == old(board)@.buses.len() + 1,
        r.3@ == old(board)@.buses.len() + 2,
        r.4@ == old(board)@.buses.len() + 3,
        final(board)@ == old(board)@.with_mem(MemView { contents: contents@, ptr0: 0, ptr1: 0 })
            .with_bus(addr_bus((old(board)@.mems.len()) as usize, 0))
            .with_bus(addr_bus((old(board)@.mems.len()) as usize, 1))
            .with_bus(rom_data_bus((old(board)@.mems.len()) as usize, 0))
            .with_bus(rom_data_bus((old(board)@.mems.len()) as usize, 1)),
{
    let ghost cv = contents@;
    let m = board.add_mem(MemState { contents, ptr0: 0, ptr1: 0 });
    let addr0 = XBus::new(board);
    board.connect_source(addr0, Endpoint::MemAddr(m, 0));
    board.connect_sink(addr0, Endpoint::MemAddr(m, 0));
    let addr1 = XBus::new(board);
    board.connect_source(addr1, Endpoint::MemAddr(m, 1));
    board.connect_sink(addr1, Endpoint::MemAddr(m, 1));
    let data0 = XBus::new(board);
    board.connect_source(data0, Endpoint::MemData(m, 0));
    let data1 = XBus::new(board);
    board.connect_source(data1, Endpoint::MemData(m, 1));
    proof {
        assert(final(board)@ =~~= old(board)@.with_mem(MemView { contents: cv, ptr0: 0, ptr1: 0 })
            .with_bus(addr_bus((old(board)@.mems.len()) as usize, 0))
            .with_bus(addr_bus((old(board)@.mems.len()) as usize, 1))
            .with_bus(rom_data_bus((old(board)@.mems.len()) as usize, 0))
            .with_bus(rom_data_bus((old(board)@.mems.len()) as usize, 1)));
    }
    (m, addr0, addr1, data0, data1)
}

/// Create a ROM holding the given cells. The data buses have no sinks, only
/// sources, so writes to them park forever unless something else reads from
/// the same bus.
pub fn rom(board: &mut Board, contents: [i32; 14]) -> (r: Memory)
    ensures
        r@ == old(board)@.mems.len(),
        r.addr0@ == old(board)@.buses.len(),
        r.addr1@ == old(board)@.buses.len() + 1,
        r.data0@ == old(board)@.buses.len() + 2,
        r.data1@ == old(board)@.buses.len() + 3,
        final(board)@ == old(board)@.with_mem(MemView { contents: contents@, ptr0: 0, ptr1: 0 })
            .with_bus(addr_bus((old(board)@.mems.len()) as usize, 0))
            .with_bus(addr_bus((old(board)@.mems.len()) as usize, 1))
            .with_bus(rom_data_bus((old(board)@.mems.len()) as usize, 0))
            .with_bus(rom_data_bus((old(board)@.mems.len()) as usize, 1)),
{
    let mut cells: Vec<i32> = Vec::new();
    let mut k: usize = 0;
    while k < 14
        invariant
            k <= 14,
            cells@ =~= contents@.subrange(0, k as int),
        decreases 14 - k,
    {
        cells.push(contents[k]);
        proof {
            assert(cells@ =~= contents@.subrange(0, k + 1 as int));
        }
        k += 1;
    }
    proof {
        assert(cells@ =~= contents@);
    }
    let (m, addr0, addr1, data0, data1) = fresh_mem(board, cells);
    Memory { addr0, addr1, data0, data1, mem: m }
}

/// Create a RAM, initialized to all zeros. Its data buses both read and write
/// the cells.
pub fn ram(board: &mut Board) -> (r: Memory)
    ensures
        r@ == old(board)@.mems.len(),
        r.addr0@ == old(board)@.buses.len(),
        r.addr1@ == old(board)@.buses.len() + 1,
        r.data0@ == old(board)@.buses.len() + 2,
        r.data1@ == old(board)@.buses.len() + 3,
        final(board)@ == old(board)@.with_mem(
            MemView { contents: Seq::new(14, |i: int| 0i32), ptr0: 0, ptr1: 0 },
        ).with_bus(addr_bus((old(board)@.mems.len()) as usize, 0))
            .with_bus(addr_bus((old(board)@.mems.len()) as usize, 1))
            .with_bus(ram_data_bus((old(board)@.mems.len()) as usize, 0))
            .with_bus(ram_data_bus((old(board)@.mems.len()) as usize, 1)),
{
    let mut cells: Vec<i32> = Vec::new();
    let mut k: usize = 0;
    while k < 14
        invariant
            k <= 14,
            cells@ =~= Seq::new(k as nat, |i: int| 0i32),
        decreases 14 - k,
    {
        cells.push(0);
        proof {
            assert(cells@ =~= Seq::new((k + 1) as nat, |i: int| 0i32));
        }
        k += 1;
    }
    let (m, addr0, addr1, data0, data1) = fresh_mem(board, cells);
    board.connect_sink(data0, Endpoint::MemData(m, 0));
    board.connect_sink(data1, Endpoint::MemData(m, 1));
    proof {
        assert(final(board)@ =~~= old(board)@.with_mem(
            MemView { contents: Seq::new(14, |i: int| 0i32), ptr0: 0, ptr1: 0 },
        ).with_bus(addr_bus((old(board)@.mems.len()) as usize, 0))
            .with_bus(addr_bus((old(board)@.mems.len()) as usize, 1))
            .with_bus(ram_data_bus((old(board)@.mems.len()) as usize, 0))
            .with_bus(ram_data_bus((old(board)@.mems.len()) as usize, 1)));
    }
    Memory { addr0, addr1, data0, data1, mem: m }
}

impl MemState {
    pub(crate) fn data_read(&mut self, which: usize) -> (r: i32)
        requires
            mem_wf(old(self)@),
        ensures
            r == data_read_value(old(self)@, which),
            final(self)@ == data_read_after(old(self)@, which),
            mem_wf(final(self)@),
    {
        let p = if which == 0 {
            self.ptr0
        } else {
            self.ptr1
        };
        let r = self.contents[p];
        let np = adjust_index(p as i32 + 1);
        if which == 0 {
            self.ptr0 = np;
        } else {
            self.ptr1 = np;
        }
        r
    }

    pub(crate) fn data_write(&mut self, which: usize, v: i32)
        requires
            mem_wf(old(self)@),
        ensures
            final(self)@ == data_write_after(old(self)@, which, v),
            mem_wf(final(self)@),
    {
        let p = if which == 0 {
            self.ptr0
        } else {
            self.ptr1
        };
        self.contents[p] = v;
        let np = adjust_index(p as i32 + 1);
        if which == 0 {
            self.ptr0 = np;
        } else {
            self.ptr1 = np;
        }
    }

    pub(crate) fn addr_read(&self, which: usize) -> (r: i32)
        requires
            mem_wf(self@),
        ensures
            r == ptr_of(self@, which) as i32,
    {
        (if which == 0 {
            self.ptr0
        } else {
            self.ptr1
        }) as i32
    }

    pub(crate) fn addr_write(&mut self, which: usize, v: i32)
        requires
            mem_wf(old(self)@),
        ensures
            final(self)@ == addr_write_after(old(self)@, which, v),
            mem_wf(final(self)@),
    {
        let np = adjust_index(v);
        if which == 0 {
            self.ptr0 = np;
        } else {
            self.ptr1 = np;
        }
    }
}

} // verus!
