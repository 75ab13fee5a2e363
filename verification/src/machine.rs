//! The execution engine: a fetch-decode-execute loop over the decoded
//! instruction sequence, mutating an explicitly owned machine state of 16
//! 8-bit registers, 128 8-bit memory cells, and a program counter.
//!
//! Arithmetic wraps modulo 256 (for subtraction as well as addition, for
//! consistency), and a shift by 8 or more yields 0: both policies are
//! fixed here and in the tests.

use vstd::prelude::*;

use crate::assembler::Instr;
use crate::assembler::assemble_source;
use crate::assembler::assemble_source_spec;
use crate::assembler::instr_wf;
use crate::errors::AsmError;
use crate::errors::RuntimeFault;

verus! {

/// How an execution ended.
#[derive(Debug, Clone, Copy, PartialEq, Eq, Structural)]
pub enum ExecStatus {
    /// The program reached `halt`: the machine state is the result.
    Halted,
    /// Execution aborted at instruction address `at`; the machine state
    /// is as of the last completed instruction.
    Faulted { kind: RuntimeFault, at: usize },
}

/// The mathematical shape of the machine state.
#[verifier::ext_equal]
pub struct MachV {
    pub regs: Seq<u8>,
    pub mem: Seq<u8>,
    pub pc: nat,
}

/// 16 registers and 128 memory cells.
pub open spec fn mach_wf(m: MachV) -> bool {
    m.regs.len() == 16 && m.mem.len() == 128
}

/// The state every run starts from: everything zeroed.
pub open spec fn init_mach() -> MachV {
    MachV { regs: Seq::new(16, |i: int| 0u8), mem: Seq::new(128, |i: int| 0u8), pc: 0 }
}

/// 8-bit wraparound addition.
pub open spec fn wrap_add(a: u8, b: u8) -> u8 {
    ((a + b) % 256) as u8
}

/// 8-bit wraparound subtraction.
pub open spec fn wrap_sub(a: u8, b: u8) -> u8 {
    ((a - b + 256) % 256) as u8
}

/// Bitwise not-or; the complement is taken by toggling all eight bits.
pub open spec fn nor_bits(a: u8, b: u8) -> u8 {
    (a | b) ^ 0xff
}

/// Left shift by the amount held in a register; an amount of 8 or more
/// yields 0.
pub open spec fn shl_bits(a: u8, sh: u8) -> u8 {
    if sh >= 8 {
        0
    } else {
        a << sh
    }
}

/// Logical right shift by the amount held in a register; an amount of 8
/// or more yields 0.
pub open spec fn shr_bits(a: u8, sh: u8) -> u8 {
    if sh >= 8 {
        0
    } else {
        a >> sh
    }
}

/// What one instruction does to the machine state. `Halt` leaves the
/// state alone (the run loop stops on it); `Jump` moves the program
/// counter; everything else advances it by one.
pub open spec fn step_spec(m: MachV, ins: Instr) -> MachV
    recommends
        mach_wf(m),
        instr_wf(ins),
{
    match ins {
        Instr::Nop => MachV { pc: m.pc + 1, ..m },
        Instr::Halt => m,
        Instr::LoadImmediate { reg, value } => MachV {
            regs: m.regs.update(reg as int, value),
            pc: m.pc + 1,
            ..m
        },
        Instr::Move { src, dst } => MachV {
            regs: m.regs.update(dst as int, m.regs[src as int]),
            pc: m.pc + 1,
            ..m
        },
        Instr::Add { src1, src2, dst } => MachV {
            regs: m.regs.update(dst as int, wrap_add(m.regs[src1 as int], m.regs[src2 as int])),
            pc: m.pc + 1,
            ..m
        },
        Instr::Sub { src1, src2, dst } => MachV {
            regs: m.regs.update(dst as int, wrap_sub(m.regs[src1 as int], m.regs[src2 as int])),
            pc: m.pc + 1,
            ..m
        },
        Instr::And { src1, src2, dst } => MachV {
            regs: m.regs.update(dst as int, m.regs[src1 as int] & m.regs[src2 as int]),
            pc: m.pc + 1,
            ..m
        },
        Instr::Or { src1, src2, dst } => MachV {
            regs: m.regs.update(dst as int, m.regs[src1 as int] | m.regs[src2 as int]),
            pc: m.pc + 1,
            ..m
        },
        Instr::Xor { src1, src2, dst } => MachV {
            regs: m.regs.update(dst as int, m.regs[src1 as int] ^ m.regs[src2 as int]),
            pc: m.pc + 1,
            ..m
        },
        Instr::Nor { src1, src2, dst } => MachV {
            regs: m.regs.update(dst as int, nor_bits(m.regs[src1 as int], m.regs[src2 as int])),
            pc: m.pc + 1,
            ..m
        },
        Instr::ShiftLeft { src1, src2, dst } => MachV {
            regs: m.regs.update(dst as int, shl_bits(m.regs[src1 as int], m.regs[src2 as int])),
            pc: m.pc + 1,
            ..m
        },
        Instr::ShiftRight { src1, src2, dst } => MachV {
            regs: m.regs.update(dst as int, shr_bits(m.regs[src1 as int], m.regs[src2 as int])),
            pc: m.pc + 1,
            ..m
        },
        Instr::Load { addr, dst } => MachV {
            regs: m.regs.update(dst as int, m.mem[addr as int]),
            pc: m.pc + 1,
            ..m
        },
        Instr::Store { addr, src } => MachV {
            mem: m.mem.update(addr as int, m.regs[src as int]),
            pc: m.pc + 1,
            ..m
        },
        Instr::Jump { target } => MachV { pc: target as nat, ..m },
    }
}

/// The run loop with a step budget: fetching outside the program is a
/// fault, `halt` ends the run, and a program that is still running when
/// the budget is spent faults rather than looping forever.
pub open spec fn run_spec(prog: Seq<Instr>, m: MachV, fuel: nat) -> (ExecStatus, MachV)
    decreases fuel,
{
    if m.pc >= prog.len() {
        (
            ExecStatus::Faulted {
                kind: RuntimeFault::ProgramCounterOutOfRange,
                at: m.pc as usize,
            },
            m,
        )
    } else if prog[m.pc as int] is Halt {
        (ExecStatus::Halted, m)
    } else if fuel == 0 {
        (ExecStatus::Faulted { kind: RuntimeFault::StepLimitExceeded, at: m.pc as usize }, m)
    } else {
        run_spec(prog, step_spec(m, prog[m.pc as int]), (fuel - 1) as nat)
    }
}

/// The machine state: register file, memory, program counter.
pub struct MachineState {
    registers: Vec<u8>,
    memory: Vec<u8>,
    pc: usize,
}

impl View for MachineState {
    type V = MachV;

    closed spec fn view(&self) -> MachV {
        MachV { regs: self.registers@, mem: self.memory@, pc: self.pc as nat }
    }
}

impl MachineState {
    pub open spec fn wf(&self) -> bool {
        mach_wf(self@)
    }

    /// A fresh machine: all registers and memory cells zero, the program
    /// counter at the first instruction.
    pub fn new() -> (r: MachineState)
        ensures
            r.wf(),
            r@ == init_mach(),
    {
        let mut registers: Vec<u8> = Vec::new();
        let mut i: usize = 0;
        while i < 16
            invariant
                i <= 16,
                registers@.len() == i,
                forall|j: int| 0 <= j < i ==> registers@[j] == 0u8,
            decreases 16 - i,
        {
            registers.push(0);
            i = i + 1;
        }
        let mut memory: Vec<u8> = Vec::new();
        let mut k: usize = 0;
        while k < 128
            invariant
                k <= 128,
                memory@.len() == k,
                forall|j: int| 0 <= j < k ==> memory@[j] == 0u8,
            decreases 128 - k,
        {
            memory.push(0);
            k = k + 1;
        }
        let r = MachineState { registers, memory, pc: 0 };
        proof {
            assert(r@ =~= init_mach());
        }
        r
    }

    /// The value held by register `i`.
    pub fn register_value(&self, i: usize) -> (r: u8)
        requires
            self.wf(),
            i < 16,
        ensures
            r == self@.regs[i as int],
    {
        self.registers[i]
    }

    /// The value held by memory cell `i`.
    pub fn memory_value(&self, i: usize) -> (r: u8)
        requires
            self.wf(),
            i < 128,
        ensures
            r == self@.mem[i as int],
    {
        self.memory[i]
    }

    /// The program counter.
    pub fn program_counter(&self) -> (r: usize)
        ensures
            r == self@.pc,
    {
        self.pc
    }

    /// Executes one decoded instruction against the state.
    pub fn step(&mut self, ins: &Instr)
        requires
            old(self).wf(),
            instr_wf(*ins),
            old(self)@.pc < usize::MAX,
        ensures
            final(self).wf(),
            final(self)@ == step_spec(old(self)@, *ins),
    {
        match ins {
            Instr::Nop => {
                self.pc = self.pc + 1;
            },
            Instr::Halt => {},
            Instr::LoadImmediate { reg, value } => {
                self.registers[*reg as usize] = *value;
                self.pc = self.pc + 1;
            },
            Instr::Move { src, dst } => {
                let v = self.registers[*src as usize];
                self.registers[*dst as usize] = v;
                self.pc = self.pc + 1;
            },
            Instr::Add { src1, src2, dst } => {
                let a = self.registers[*src1 as usize];
                let b = self.registers[*src2 as usize];
                self.registers[*dst as usize] = a.wrapping_add(b);
                self.pc = self.pc + 1;
            },
            Instr::Sub { src1, src2, dst } => {
                let a = self.registers[*src1 as usize];
                let b = self.registers[*src2 as usize];
                self.registers[*dst as usize] = a.wrapping_sub(b);
                self.pc = self.pc + 1;
            },
            Instr::And { src1, src2, dst } => {
                let a = self.registers[*src1 as usize];
                let b = self.registers[*src2 as usize];
                self.registers[*dst as usize] = a & b;
                self.pc = self.pc + 1;
            },
            Instr::Or { src1, src2, dst } => {
                let a = self.registers[*src1 as usize];
                let b = self.registers[*src2 as usize];
                self.registers[*dst as usize] = a | b;
                self.pc = self.pc + 1;
            },
            Instr::Xor { src1, src2, dst } => {
                let a = self.registers[*src1 as usize];
                let b = self.registers[*src2 as usize];
                self.registers[*dst as usize] = a ^ b;
                self.pc = self.pc + 1;
            },
            Instr::Nor { src1, src2, dst } => {
                let a = self.registers[*src1 as usize];
                let b = self.registers[*src2 as usize];
                self.registers[*dst as usize] = (a | b) ^ 0xff;
                self.pc = self.pc + 1;
            },
            Instr::ShiftLeft { src1, src2, dst } => {
                let a = self.registers[*src1 as usize];
                let sh = self.registers[*src2 as usize];
                self.registers[*dst as usize] = if sh >= 8 {
                    0
                } else {
                    a << sh
                };
                self.pc = self.pc + 1;
            },
            Instr::ShiftRight { src1, src2, dst } => {
                let a = self.registers[*src1 as usize];
                let sh = self.registers[*src2 as usize];
                self.registers[*dst as usize] = if sh >= 8 {
                    0
                } else {
                    a >> sh
                };
                self.pc = self.pc + 1;
            },
            Instr::Load { addr, dst } => {
                let v = self.memory[*addr as usize];
                self.registers[*dst as usize] = v;
                self.pc = self.pc + 1;
            },
            Instr::Store { addr, src } => {
                let v = self.registers[*src as usize];
                self.memory[*addr as usize] = v;
                self.pc = self.pc + 1;
            },
            Instr::Jump { target } => {
                self.pc = *target;
            },
        }
        proof {
            assert(self@ =~= step_spec(old(self)@, *ins));
        }
    }

    /// Runs the program to halt, fault, or step-budget exhaustion.
    pub fn run(&mut self, prog: &Vec<Instr>, max_steps: usize) -> (r: ExecStatus)
        requires
            old(self).wf(),
            forall|k: int| 0 <= k < prog@.len() ==> instr_wf(#[trigger] prog@[k]),
        ensures
            final(self).wf(),
            r == run_spec(prog@, old(self)@, max_steps as nat).0,
            final(self)@ == run_spec(prog@, old(self)@, max_steps as nat).1,
    {
        let mut steps: usize = 0;
        loop
            invariant
                self.wf(),
                steps <= max_steps,
                forall|k: int| 0 <= k < prog@.len() ==> instr_wf(#[trigger] prog@[k]),
                run_spec(prog@, old(self)@, max_steps as nat) == run_spec(
                    prog@,
                    self@,
                    (max_steps - steps) as nat,
                ),
            decreases max_steps - steps,
        {
            if self.pc >= prog.len() {
                return ExecStatus::Faulted {
                    kind: RuntimeFault::ProgramCounterOutOfRange,
                    at: self.pc,
                };
            }
            let ins = prog[self.pc];
            if let Instr::Halt = ins {
                return ExecStatus::Halted;
            }
            if steps >= max_steps {
                return ExecStatus::Faulted { kind: RuntimeFault::StepLimitExceeded, at: self.pc };
            }
            self.step(&ins);
            steps = steps + 1;
        }
    }
}

/// Executing `nop` repeatedly: the registers and the memory after any
/// number of `nop` steps.
pub open spec fn nop_steps(m: MachV, n: nat) -> MachV
    decreases n,
{
    if n == 0 {
        m
    } else {
        nop_steps(step_spec(m, Instr::Nop), (n - 1) as nat)
    }
}

/// Executing `nop` any number of times leaves the machine state
/// unchanged except for the program counter, which advances once per
/// step.
pub proof fn lemma_nop_identity(m: MachV, n: nat)
    ensures
        nop_steps(m, n).regs == m.regs,
        nop_steps(m, n).mem == m.mem,
        nop_steps(m, n).pc == m.pc + n,
    decreases n,
{
    if n > 0 {
        lemma_nop_identity(step_spec(m, Instr::Nop), (n - 1) as nat);
    }
}

/// Assembles and runs a source program on a fresh machine: the final
/// machine state and the termination status, or the assembly error. No
/// instruction of a program with an assembly error ever executes.
pub fn run_source(source: String, max_steps: usize) -> (r: Result<
    (MachineState, ExecStatus),
    AsmError,
>)
    ensures
        match r {
            Ok((state, status)) => assemble_source_spec(source@) is Ok && {
                let outcome = run_spec(
                    assemble_source_spec(source@)->Ok_0,
                    init_mach(),
                    max_steps as nat,
                );
                status == outcome.0 && state@ == outcome.1 && state.wf()
            },
            Err(e) => assemble_source_spec(source@) == Err::<Seq<Instr>, AsmError>(e),
        },
{
    let prog = match assemble_source(source) {
        Ok(p) => p,
        Err(e) => {
            return Err(e);
        },
    };
    let mut state = MachineState::new();
    let status = state.run(&prog, max_steps);
    Ok((state, status))
}

} // verus!

