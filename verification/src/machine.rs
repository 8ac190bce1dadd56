use vstd::prelude::*;

use crate::opcode::OpCode;
use crate::translate::{prog_wf, target_in_range};
use vstd::pervasive::VecAdditionalExecFns;

verus! {

/// Number of cells on the tape.
pub const TAPE_LEN: usize = 30000;

/// The executor's state, seen mathematically: the tape's cells, the data
/// pointer and the program counter.
#[verifier::ext_equal]
pub struct VmView {
    pub tape: Seq<u8>,
    pub ptr: int,
    pub pc: int,
}

/// The state every run begins in: all cells zero, pointer and counter zero.
pub open spec fn init_view() -> VmView {
    VmView { tape: Seq::new(TAPE_LEN as nat, |i: int| 0u8), ptr: 0, pc: 0 }
}

/// The data pointer one cell forward, wrapping at the tape's end.
pub open spec fn ptr_fwd(p: int) -> int {
    if p + 1 == TAPE_LEN { 0 } else { p + 1 }
}

/// The data pointer one cell backward, wrapping at the tape's start.
pub open spec fn ptr_back(p: int) -> int {
    if p == 0 { TAPE_LEN - 1 } else { p - 1 }
}

/// One cell incremented with 8-bit wraparound: 255 becomes 0.
pub open spec fn cell_inc(v: u8) -> u8 {
    if v == 255 { 0 } else { (v + 1) as u8 }
}

/// One cell decremented with 8-bit wraparound: 0 becomes 255.
pub open spec fn cell_dec(v: u8) -> u8 {
    if v == 0 { 255 } else { (v - 1) as u8 }
}

/// Pointer arithmetic wraps at the tape's bounds: one move backward from
/// cell 0 lands on cell 29999, and one move forward from cell 29999 lands
/// back on cell 0.
pub proof fn lemma_pointer_wraps()
    ensures
        ptr_back(0) == 29999,
        ptr_fwd(29999) == 0,
        forall|p: int| 0 <= p < TAPE_LEN ==> 0 <= #[trigger] ptr_fwd(p) < TAPE_LEN,
        forall|p: int| 0 <= p < TAPE_LEN ==> 0 <= #[trigger] ptr_back(p) < TAPE_LEN,
{
}

/// Cell arithmetic wraps at the byte's bounds: a cell at 255 incremented
/// becomes 0, and a cell at 0 decremented becomes 255.
pub proof fn lemma_cell_wraps()
    ensures
        cell_inc(255) == 0,
        cell_dec(0) == 255,
{
}

/// What the instruction at the program counter asks of the outside world.
#[derive(Clone, Copy, Debug, PartialEq, Eq, Structural)]
pub enum Action {
    /// The program counter has reached the program's end: the run is over.
    Halt,
    /// An instruction that needs no input or output was executed.
    Continue,
    /// An output instruction was executed: this byte goes to the output stream.
    Output(u8),
    /// The machine stands at an input instruction and waits for one byte.
    Input,
}

/// The action of the instruction at the program counter of `m`.
pub open spec fn spec_action(prog: Seq<OpCode>, m: VmView) -> Action {
    if !(0 <= m.pc < prog.len()) {
        Action::Halt
    } else {
        match prog[m.pc] {
            OpCode::Write => Action::Output(m.tape[m.ptr]),
            OpCode::Read => Action::Input,
            _ => Action::Continue,
        }
    }
}

/// The state after the instruction at the program counter, input aside: an
/// input instruction leaves the state as it is until a byte arrives, and a
/// taken jump lands one past the carried position.
pub open spec fn spec_advance(prog: Seq<OpCode>, m: VmView) -> VmView {
    if !(0 <= m.pc < prog.len()) {
        m
    } else {
        match prog[m.pc] {
            OpCode::IncPtr => VmView { ptr: ptr_fwd(m.ptr), pc: m.pc + 1, ..m },
            OpCode::DecPtr => VmView { ptr: ptr_back(m.ptr), pc: m.pc + 1, ..m },
            OpCode::IncVal => VmView {
                tape: m.tape.update(m.ptr, cell_inc(m.tape[m.ptr])),
                pc: m.pc + 1,
                ..m
            },
            OpCode::DecVal => VmView {
                tape: m.tape.update(m.ptr, cell_dec(m.tape[m.ptr])),
                pc: m.pc + 1,
                ..m
            },
            OpCode::Write => VmView { pc: m.pc + 1, ..m },
            OpCode::Read => m,
            OpCode::JmpFront(t) => VmView {
                pc: if m.tape[m.ptr] == 0 { t + 1 } else { m.pc + 1 },
                ..m
            },
            OpCode::JmpBack(t) => VmView {
                pc: if m.tape[m.ptr] != 0 { t + 1 } else { m.pc + 1 },
                ..m
            },
        }
    }
}

/// The state after a byte arrives at an input instruction: the byte is
/// stored in the current cell and the counter advances.
pub open spec fn spec_feed(m: VmView, b: u8) -> VmView {
    VmView { tape: m.tape.update(m.ptr, b), pc: m.pc + 1, ..m }
}

/// The executor: a fixed-size tape of byte cells, a data pointer into it,
/// and a program counter into the program being run.
pub struct Machine {
    tape: Vec<u8>,
    ptr: usize,
    pc: usize,
}

impl View for Machine {
    type V = VmView;

    closed spec fn view(&self) -> VmView {
        VmView { tape: self.tape@, ptr: self.ptr as int, pc: self.pc as int }
    }
}

impl Machine {
    /// The tape has its fixed length and the pointer stays on it.
    pub closed spec fn wf(&self) -> bool {
        &&& self.tape@.len() == TAPE_LEN
        &&& self.ptr < TAPE_LEN
    }

    /// A fresh machine, ready to run a program from its first instruction.
    pub fn new() -> (m: Machine)
        ensures
            m.wf(),
            m@ == init_view(),
    {
        let mut tape: Vec<u8> = Vec::new();
        let mut i: usize = 0;
        while i < TAPE_LEN
            invariant
                i <= TAPE_LEN,
                tape@.len() == i,
                forall|k: int| 0 <= k < i ==> tape@[k] == 0u8,
            decreases TAPE_LEN - i,
        {
            tape.push(0);
            i += 1;
        }
        let m = Machine { tape, ptr: 0, pc: 0 };
        proof {
            assert(m@.tape =~= init_view().tape);
            assert(m@ =~= init_view());
        }
        m
    }

    /// The current data pointer.
    pub fn ptr(&self) -> (p: usize)
        ensures
            p == self@.ptr,
    {
        self.ptr
    }

    /// The current program counter.
    pub fn pc(&self) -> (p: usize)
        ensures
            p == self@.pc,
    {
        self.pc
    }

    /// The cell under the data pointer.
    pub fn cell(&self) -> (v: u8)
        requires
            self.wf(),
        ensures
            v == self@.tape[self@.ptr],
    {
        self.tape[self.ptr]
    }

    /// Execute the instruction at the program counter, if any: every effect
    /// on tape, pointer and counter happens here, exactly as the
    /// specification-level step describes; input and output themselves are
    /// the caller's, through the returned action.
    pub fn step(&mut self, prog: &Vec<OpCode>) -> (a: Action)
        requires
            old(self).wf(),
            prog_wf(prog@),
            old(self)@.pc <= prog@.len(),
        ensures
            final(self).wf(),
            0 <= final(self)@.pc <= prog@.len(),
            a == spec_action(prog@, old(self)@),
            final(self)@ == spec_advance(prog@, old(self)@),
    {
        if self.pc >= prog.len() {
            return Action::Halt;
        }
        proof {
            assert(target_in_range(prog@, self.pc as int));
        }
        let op = prog[self.pc];
        match op {
            OpCode::IncPtr => {
                self.ptr = if self.ptr + 1 == TAPE_LEN { 0 } else { self.ptr + 1 };
                self.pc += 1;
                Action::Continue
            }
            OpCode::DecPtr => {
                self.ptr = if self.ptr == 0 { TAPE_LEN - 1 } else { self.ptr - 1 };
                self.pc += 1;
                Action::Continue
            }
            OpCode::IncVal => {
                let v = self.tape[self.ptr];
                self.tape.set(self.ptr, v.wrapping_add(1));
                self.pc += 1;
                Action::Continue
            }
            OpCode::DecVal => {
                let v = self.tape[self.ptr];
                self.tape.set(self.ptr, v.wrapping_sub(1));
                self.pc += 1;
                Action::Continue
            }
            OpCode::Write => {
                let b = self.tape[self.ptr];
                self.pc += 1;
                Action::Output(b)
            }
            OpCode::Read => Action::Input,
            OpCode::JmpFront(t) => {
                if self.tape[self.ptr] == 0 {
                    self.pc = t + 1;
                } else {
                    self.pc += 1;
                }
                Action::Continue
            }
            OpCode::JmpBack(t) => {
                if self.tape[self.ptr] != 0 {
                    self.pc = t + 1;
                } else {
                    self.pc += 1;
                }
                Action::Continue
            }
        }
    }

    /// Deliver one byte to the input instruction the machine waits at: the
    /// byte lands in the current cell and the counter moves past the
    /// instruction.
    pub fn give_input(&mut self, prog: &Vec<OpCode>, b: u8)
        requires
            old(self).wf(),
            old(self)@.pc <= prog@.len(),
            spec_action(prog@, old(self)@) == Action::Input,
        ensures
            final(self).wf(),
            0 <= final(self)@.pc <= prog@.len(),
            final(self)@ == spec_feed(old(self)@, b),
    {
        let n = prog.len();
        proof {
            assert(self.pc < n);
        }
        self.tape.set(self.ptr, b);
        self.pc += 1;
    }
}

} // verus!
