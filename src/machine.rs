use vstd::prelude::*;

use crate::instruction::{
    decode, lemma_integer_text_is_not_instruction, Instruction, InstructionView, OperandView,
};
use crate::text::{decimal_string, decimal_text, integer_value, parse_integer};

verus! {

/// A fatal condition met while executing; every one of them ends the run.
#[derive(Debug, Clone, PartialEq, Eq)]
pub enum VmError {
    /// An address outside `[0, size)`.
    OutOfBounds { address: i64, size: usize },
    /// The cell under the program counter is neither an instruction nor an integer.
    InvalidInstruction { pc: i64, text: String },
    /// The cell under the program counter holds an integer.
    ExecutingData { pc: i64, text: String },
    /// An operand's address literal is not an integer.
    MalformedAddress { text: String },
    /// The cell that an indirect operand points at holds no integer.
    MalformedIndirectTarget { address: i64, text: String },
}

/// The model of a `VmError`.
pub enum Fault {
    OutOfBounds { address: int, size: int },
    InvalidInstruction { pc: int, text: Seq<char> },
    ExecutingData { pc: int, text: Seq<char> },
    MalformedAddress { text: Seq<char> },
    MalformedIndirectTarget { address: int, text: Seq<char> },
}

impl View for VmError {
    type V = Fault;

    open spec fn view(&self) -> Fault {
        match self {
            VmError::OutOfBounds { address, size } => Fault::OutOfBounds {
                address: *address as int,
                size: *size as int,
            },
            VmError::InvalidInstruction { pc, text } => Fault::InvalidInstruction {
                pc: *pc as int,
                text: text@,
            },
            VmError::ExecutingData { pc, text } => Fault::ExecutingData {
                pc: *pc as int,
                text: text@,
            },
            VmError::MalformedAddress { text } => Fault::MalformedAddress { text: text@ },
            VmError::MalformedIndirectTarget { address, text } => Fault::MalformedIndirectTarget {
                address: *address as int,
                text: text@,
            },
        }
    }
}

/// The machine: a program counter and a memory of text cells that hold code
/// and data alike.
pub struct VM {
    pub pc: i64,
    pub memory: Vec<String>,
}

/// The model of a machine state.
pub struct VmView {
    pub pc: int,
    pub memory: Seq<Seq<char>>,
}

impl View for VM {
    type V = VmView;

    open spec fn view(&self) -> VmView {
        VmView { pc: self.pc as int, memory: self.memory@.map_values(|c: String| c@) }
    }
}

/// What one step does to a state.
pub enum StepOutcome {
    /// The step met `exit`; the state is unchanged.
    Halted,
    /// The step completed and left this state.
    Running(VmView),
    /// The step failed; the state is unchanged.
    Failed(Fault),
}

pub open spec fn in_bounds(s: VmView, a: int) -> bool {
    0 <= a < s.memory.len()
}

pub open spec fn out_of_bounds(s: VmView, a: int) -> Fault {
    Fault::OutOfBounds { address: a, size: s.memory.len() as int }
}

/// The address that an operand names: its literal itself when direct, the
/// integer held at the literal's cell when indirect (one level only).
pub open spec fn resolve(s: VmView, op: OperandView) -> Result<int, Fault> {
    match integer_value(op.literal) {
        None => Err(Fault::MalformedAddress { text: op.literal }),
        Some(a) => if !op.indirect {
            Ok(a)
        } else if !in_bounds(s, a) {
            Err(out_of_bounds(s, a))
        } else {
            match integer_value(s.memory[a]) {
                Some(b) => Ok(b),
                None => Err(Fault::MalformedIndirectTarget { address: a, text: s.memory[a] }),
            }
        },
    }
}

/// The resolved address of an operand, which must lie in memory.
pub open spec fn target(s: VmView, op: OperandView) -> Result<int, Fault> {
    match resolve(s, op) {
        Ok(a) => if in_bounds(s, a) {
            Ok(a)
        } else {
            Err(out_of_bounds(s, a))
        },
        Err(e) => Err(e),
    }
}

/// A cell read as a counter: its integer, or zero when it holds none.
pub open spec fn counter(text: Seq<char>) -> int {
    match integer_value(text) {
        Some(v) => v,
        None => 0,
    }
}

/// What executing `i` does to `s`.
pub open spec fn execute(s: VmView, i: InstructionView) -> StepOutcome {
    match i {
        InstructionView::Exit => StepOutcome::Halted,
        InstructionView::Succ { target: op } => match target(s, op) {
            Err(e) => StepOutcome::Failed(e),
            Ok(a) => StepOutcome::Running(
                VmView {
                    pc: s.pc + 1,
                    memory: s.memory.update(a, decimal_text(counter(s.memory[a]) + 1)),
                },
            ),
        },
        InstructionView::BeqzPred { test, jump } => match target(s, test) {
            Err(e) => StepOutcome::Failed(e),
            Ok(t) => if counter(s.memory[t]) == 0 {
                match target(s, jump) {
                    Err(e) => StepOutcome::Failed(e),
                    Ok(j) => StepOutcome::Running(VmView { pc: j, memory: s.memory }),
                }
            } else {
                StepOutcome::Running(
                    VmView {
                        pc: s.pc + 1,
                        memory: s.memory.update(t, decimal_text(counter(s.memory[t]) - 1)),
                    },
                )
            },
        },
    }
}

/// One fetch-decode-execute step from `s`: the cell under the program counter
/// is decoded afresh from its current text.
pub open spec fn step(s: VmView) -> StepOutcome {
    if !in_bounds(s, s.pc) {
        StepOutcome::Failed(out_of_bounds(s, s.pc))
    } else {
        let text = s.memory[s.pc];
        match decode(text) {
            Some(i) => execute(s, i),
            None => if integer_value(text) is Some {
                StepOutcome::Failed(Fault::ExecutingData { pc: s.pc, text })
            } else {
                StepOutcome::Failed(Fault::InvalidInstruction { pc: s.pc, text })
            },
        }
    }
}

/// Up to `n` steps from `s`, stopping at the first halt or fault: whether the
/// machine is still running (or the fault), and the state it is left in.
pub open spec fn run(s: VmView, n: nat) -> (Result<bool, Fault>, VmView)
    decreases n,
{
    if n == 0 {
        (Ok(true), s)
    } else {
        match step(s) {
            StepOutcome::Halted => (Ok(false), s),
            StepOutcome::Running(t) => run(t, (n - 1) as nat),
            StepOutcome::Failed(e) => (Err(e), s),
        }
    }
}

/// The model of a result that carries a fault.
pub open spec fn result_view<T>(r: Result<T, VmError>) -> Result<T, Fault> {
    match r {
        Ok(v) => Ok(v),
        Err(e) => Err(e@),
    }
}

/// The address outside memory that resolving `op` would reach, if any: the
/// literal itself, or for an indirect operand the integer at the literal's
/// cell.
pub open spec fn outside_address(s: VmView, op: OperandView) -> Option<int> {
    match integer_value(op.literal) {
        None => None,
        Some(a) => if !in_bounds(s, a) {
            Some(a)
        } else if op.indirect {
            match integer_value(s.memory[a]) {
                Some(b) => if in_bounds(s, b) {
                    None
                } else {
                    Some(b)
                },
                None => None,
            }
        } else {
            None
        },
    }
}

/// The operand that an instruction always resolves: the target of `succ`,
/// the test of `beqz-pred`.
pub open spec fn first_operand(i: InstructionView) -> Option<OperandView> {
    match i {
        InstructionView::Succ { target } => Some(target),
        InstructionView::BeqzPred { test, jump } => Some(test),
        InstructionView::Exit => None,
    }
}

/// A program counter outside memory is fatal: the step fails with
/// `OutOfBounds` and a run ends there, with memory and program counter
/// untouched.
pub proof fn out_of_bounds_pc_is_fatal(s: VmView, n: nat)
    requires
        !in_bounds(s, s.pc),
        n > 0,
    ensures
        step(s) == StepOutcome::Failed(out_of_bounds(s, s.pc)),
        run(s, n) == (Err::<bool, Fault>(out_of_bounds(s, s.pc)), s),
{
}

/// An operand that the step reads and that names an address outside memory,
/// directly or through its pointer cell, is fatal: the step fails with
/// `OutOfBounds` for that address before it writes anything, and a run ends
/// there with the state untouched.
pub proof fn out_of_bounds_operand_is_fatal(s: VmView, op: OperandView, x: int, n: nat)
    requires
        in_bounds(s, s.pc),
        decode(s.memory[s.pc]) matches Some(i) && first_operand(i) == Some(op),
        outside_address(s, op) == Some(x),
        n > 0,
    ensures
        step(s) == StepOutcome::Failed(out_of_bounds(s, x)),
        run(s, n) == (Err::<bool, Fault>(out_of_bounds(s, x)), s),
{
}

/// A jump whose address lies outside memory is fatal once the branch is
/// taken: the step fails with `OutOfBounds` and leaves the state untouched.
pub proof fn out_of_bounds_jump_is_fatal(
    s: VmView,
    test: OperandView,
    jump: OperandView,
    x: int,
    n: nat,
)
    requires
        in_bounds(s, s.pc),
        decode(s.memory[s.pc]) == Some(InstructionView::BeqzPred { test, jump }),
        target(s, test) matches Ok(t) && counter(s.memory[t]) == 0,
        outside_address(s, jump) == Some(x),
        n > 0,
    ensures
        step(s) == StepOutcome::Failed(out_of_bounds(s, x)),
        run(s, n) == (Err::<bool, Fault>(out_of_bounds(s, x)), s),
{
}

/// A program counter on a cell that holds an integer is fatal: the step fails
/// with `ExecutingData`, whatever else the text might be read as.
pub proof fn executing_data_is_fatal(s: VmView, n: nat)
    requires
        in_bounds(s, s.pc),
        integer_value(s.memory[s.pc]) is Some,
        n > 0,
    ensures
        step(s) == StepOutcome::Failed(Fault::ExecutingData { pc: s.pc, text: s.memory[s.pc] }),
        run(s, n) == (Err::<bool, Fault>(
            Fault::ExecutingData { pc: s.pc, text: s.memory[s.pc] },
        ), s),
{
    lemma_integer_text_is_not_instruction(s.memory[s.pc]);
}

/// Code may rewrite itself: after a step, the next step executes what the
/// cell under the program counter holds now, even where that step has just
/// overwritten it.
pub proof fn fetch_sees_rewritten_cell(s: VmView, t: VmView, i: InstructionView)
    requires
        step(s) == StepOutcome::Running(t),
        in_bounds(t, t.pc),
        decode(t.memory[t.pc]) == Some(i),
    ensures
        step(t) == execute(t, i),
{
}

impl VM {
    /// Whether every index of memory fits the program counter's type.
    pub open spec fn wf(&self) -> bool {
        self.memory@.len() <= i64::MAX
    }

    /// A machine that starts at `pc` over the given cells.
    pub fn new(pc: i64, memory: Vec<String>) -> (r: VM)
        requires
            memory@.len() <= i64::MAX,
        ensures
            r.wf(),
            r.pc == pc,
            r.memory@ == memory@,
    {
        VM { pc, memory }
    }

    /// Fails with `OutOfBounds` unless `addr` indexes memory.
    pub fn check_bounds(&self, addr: i64) -> (r: Result<(), VmError>)
        requires
            self.wf(),
        ensures
            result_view(r) == if in_bounds(self@, addr as int) {
                Ok::<(), Fault>(())
            } else {
                Err(out_of_bounds(self@, addr as int))
            },
    {
        match self.index_of(addr) {
            Ok(_) => Ok(()),
            Err(e) => Err(e),
        }
    }

    /// `addr` as an index of memory, or `OutOfBounds`.
    fn index_of(&self, addr: i64) -> (r: Result<usize, VmError>)
        requires
            self.wf(),
        ensures
            match r {
                Ok(i) => i == addr && in_bounds(self@, addr as int),
                Err(e) => !in_bounds(self@, addr as int) && e@ == out_of_bounds(self@, addr as int),
            },
    {
        let len = self.memory.len();
        if addr < 0 || addr >= len as i64 {
            Err(VmError::OutOfBounds { address: addr, size: len })
        } else {
            Ok(addr as usize)
        }
    }

    /// Resolves an operand given by its address literal and mode.
    pub fn get_address(&self, addr_str: &str, indirect: bool) -> (r: Result<i64, VmError>)
        requires
            self.wf(),
        ensures
            resolve(self@, OperandView { literal: addr_str@, indirect }) == match r {
                Ok(a) => Ok(a as int),
                Err(e) => Err(e@),
            },
    {
        let addr = match parse_integer(addr_str) {
            Some(a) => a,
            None => {
                return Err(VmError::MalformedAddress { text: addr_str.to_owned() });
            },
        };
        if indirect {
            let idx = match self.index_of(addr) {
                Ok(i) => i,
                Err(e) => {
                    return Err(e);
                },
            };
            let value_str = &self.memory[idx];
            assert(self@.memory[addr as int] == value_str@);
            match parse_integer(value_str.as_str()) {
                Some(v) => Ok(v),
                None => Err(
                    VmError::MalformedIndirectTarget { address: addr, text: value_str.clone() },
                ),
            }
        } else {
            Ok(addr)
        }
    }

    /// The resolved address of an operand, checked to lie in memory.
    fn target_of(&self, addr_str: &str, indirect: bool) -> (r: Result<usize, VmError>)
        requires
            self.wf(),
        ensures
            target(self@, OperandView { literal: addr_str@, indirect }) == match r {
                Ok(a) => Ok(a as int),
                Err(e) => Err(e@),
            },
    {
        let a = match self.get_address(addr_str, indirect) {
            Ok(a) => a,
            Err(e) => {
                return Err(e);
            },
        };
        self.index_of(a)
    }

    /// The counter held at cell `a`.
    fn counter_at(&self, a: usize) -> (r: i64)
        requires
            a < self.memory@.len(),
        ensures
            r as int == counter(self@.memory[a as int]),
    {
        assert(self@.memory[a as int] == self.memory@[a as int]@);
        match parse_integer(self.memory[a].as_str()) {
            Some(v) => v,
            None => 0,
        }
    }

    /// Replaces the text of cell `a`.
    fn write_cell(&mut self, a: usize, text: String)
        requires
            a < old(self).memory@.len(),
        ensures
            final(self).memory@.len() == old(self).memory@.len(),
            final(self)@ == (VmView {
                pc: old(self)@.pc,
                memory: old(self)@.memory.update(a as int, text@),
            }),
    {
        self.memory[a] = text;
        assert(self@.memory =~= old(self)@.memory.update(a as int, text@));
    }

    /// Executes one instruction: the one that the cell under the program
    /// counter spells now. `Ok(false)` reports a halt.
    pub fn execute_instruction(&mut self) -> (r: Result<bool, VmError>)
        requires
            old(self).wf(),
        ensures
            final(self).wf(),
            match step(old(self)@) {
                StepOutcome::Halted => {
                    &&& r == Ok::<bool, VmError>(false)
                    &&& final(self)@ == old(self)@
                },
                StepOutcome::Running(t) => {
                    &&& r == Ok::<bool, VmError>(true)
                    &&& final(self)@ == t
                },
                StepOutcome::Failed(f) => {
                    &&& result_view(r) == Err::<bool, Fault>(f)
                    &&& final(self)@ == old(self)@
                },
            },
    {
        let at = match self.index_of(self.pc) {
            Ok(i) => i,
            Err(e) => {
                return Err(e);
            },
        };
        let instruction_str = self.memory[at].clone();
        assert(self@.memory[self.pc as int] == instruction_str@);
        let instruction = match Instruction::parse(instruction_str.as_str()) {
            Some(i) => i,
            None => {
                if parse_integer(instruction_str.as_str()).is_some() {
                    return Err(VmError::ExecutingData { pc: self.pc, text: instruction_str });
                } else {
                    return Err(VmError::InvalidInstruction { pc: self.pc, text: instruction_str });
                }
            },
        };
        match instruction {
            Instruction::Exit => Ok(false),
            Instruction::Succ { target } => {
                let a = match self.target_of(target.literal.as_str(), target.indirect) {
                    Ok(a) => a,
                    Err(e) => {
                        return Err(e);
                    },
                };
                let v = self.counter_at(a);
                self.write_cell(a, decimal_string(v as i128 + 1));
                self.pc = self.pc + 1;
                Ok(true)
            },
            Instruction::BeqzPred { test, jump } => {
                let t = match self.target_of(test.literal.as_str(), test.indirect) {
                    Ok(t) => t,
                    Err(e) => {
                        return Err(e);
                    },
                };
                let v = self.counter_at(t);
                if v == 0 {
                    let j = match self.target_of(jump.literal.as_str(), jump.indirect) {
                        Ok(j) => j,
                        Err(e) => {
                            return Err(e);
                        },
                    };
                    self.pc = j as i64;
                } else {
                    self.write_cell(t, decimal_string(v as i128 - 1));
                    self.pc = self.pc + 1;
                }
                Ok(true)
            },
        }
    }

    /// Executes up to `steps` instructions, stopping at the first halt.
    /// `Ok(true)`: all were executed and the machine still runs; `Ok(false)`:
    /// it halted; `Err`: a fault ended the run, leaving the state in which it
    /// arose.
    pub fn run_steps(&mut self, steps: usize) -> (r: Result<bool, VmError>)
        requires
            old(self).wf(),
        ensures
            final(self).wf(),
            run(old(self)@, steps as nat) == (result_view(r), final(self)@),
    {
        let mut i: usize = 0;
        while i < steps
            invariant
                self.wf(),
                i <= steps,
                run(self@, (steps - i) as nat) == run(old(self)@, steps as nat),
            decreases steps - i,
        {
            match self.execute_instruction() {
                Ok(true) => {},
                Ok(false) => {
                    return Ok(false);
                },
                Err(e) => {
                    return Err(e);
                },
            }
            i = i + 1;
        }
        Ok(true)
    }
}

} // verus!
