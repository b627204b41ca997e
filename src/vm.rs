//! The virtual machine: code memory, an operand stack and four registers,
//! run one instruction at a time until HALT or a fault.
use vstd::prelude::*;
use crate::binary::{decode_words, le_words};
use crate::opcode::{code_of, op_of_code, takes_operand, Opcode};

verus! {

/// Number of words the operand stack can hold.
pub const STACK_CAPACITY: usize = 1024;

/// Why loading or running a program stopped abnormally.
#[derive(Clone, Copy, Debug, PartialEq, Eq, Structural)]
pub enum Fault {
    /// The binary holds no byte.
    EmptyBinary,
    /// The binary's length is not a multiple of four bytes.
    TruncatedWord,
    /// The binary holds more words than 32-bit addresses can reach.
    BinaryTooLarge,
    /// The entry offset is no word index of the loaded code.
    EntryOutOfRange,
    /// The instruction pointer, or an operand word, lies outside code memory.
    IpOutOfBounds,
    /// The word at the instruction pointer encodes no instruction.
    IllegalOpcode,
    /// POP or RET on an empty operand stack.
    StackUnderflow,
    /// PUSH or CALL on a full operand stack.
    StackOverflow,
}

/// What one step of execution did.
#[derive(Clone, Copy, Debug, PartialEq, Eq, Structural)]
pub enum Event {
    /// An instruction ran; execution goes on.
    Continue,
    /// PRINT ran and emitted this value.
    Print(u32),
    /// HALT ran; the machine stays where it is.
    Halt,
    /// The instruction could not run; the machine is left unchanged.
    Fault(Fault),
}

/// How a run ended.
#[derive(Clone, Copy, Debug, PartialEq, Eq, Structural)]
pub enum Status {
    Halted,
    Faulted(Fault),
    /// The step budget ran out before HALT or a fault.
    OutOfFuel,
}

/// The registers of a machine, as seen from outside.
#[derive(Clone, Copy, Debug, PartialEq, Eq, Structural)]
pub struct Snapshot {
    pub accumulator: u32,
    pub instruction_pointer: usize,
    pub stack_pointer: usize,
    pub frame_base_pointer: usize,
}

/// The abstract state of a machine.
pub struct Machine {
    pub code: Seq<u32>,
    pub stack: Seq<u32>,
    pub acc: u32,
    pub ip: nat,
    pub fbp: nat,
}

/// One step of execution from `m`: the next state and what happened.
pub open spec fn next(m: Machine) -> (Machine, Event) {
    if m.ip >= m.code.len() {
        (m, Event::Fault(Fault::IpOutOfBounds))
    } else {
        match op_of_code(m.code[m.ip as int]) {
            None => (m, Event::Fault(Fault::IllegalOpcode)),
            Some(op) => if takes_operand(op) && m.ip + 1 >= m.code.len() {
                (m, Event::Fault(Fault::IpOutOfBounds))
            } else {
                let arg = m.code[m.ip + 1 as int];
                match op {
                    Opcode::Add => (
                        Machine { acc: m.acc.wrapping_add(arg), ip: m.ip + 2, ..m },
                        Event::Continue,
                    ),
                    Opcode::Sub => (
                        Machine { acc: m.acc.wrapping_sub(arg), ip: m.ip + 2, ..m },
                        Event::Continue,
                    ),
                    Opcode::Print => (Machine { ip: m.ip + 1, ..m }, Event::Print(m.acc)),
                    Opcode::Jmp => (Machine { ip: arg as nat, ..m }, Event::Continue),
                    Opcode::Push => if m.stack.len() >= STACK_CAPACITY {
                        (m, Event::Fault(Fault::StackOverflow))
                    } else {
                        (Machine { stack: m.stack.push(m.acc), ip: m.ip + 1, ..m }, Event::Continue)
                    },
                    Opcode::Pop => if m.stack.len() == 0 {
                        (m, Event::Fault(Fault::StackUnderflow))
                    } else {
                        (
                            Machine {
                                stack: m.stack.drop_last(),
                                acc: m.stack.last(),
                                ip: m.ip + 1,
                                ..m
                            },
                            Event::Continue,
                        )
                    },
                    Opcode::SetAcc => (Machine { acc: arg, ip: m.ip + 2, ..m }, Event::Continue),
                    Opcode::Call => if m.stack.len() >= STACK_CAPACITY {
                        (m, Event::Fault(Fault::StackOverflow))
                    } else {
                        (
                            Machine {
                                stack: m.stack.push((m.ip + 2) as u32),
                                ip: arg as nat,
                                fbp: m.stack.len(),
                                ..m
                            },
                            Event::Continue,
                        )
                    },
                    Opcode::Ret => if m.stack.len() == 0 {
                        (m, Event::Fault(Fault::StackUnderflow))
                    } else {
                        (
                            Machine { stack: m.stack.drop_last(), ip: m.stack.last() as nat, ..m },
                            Event::Continue,
                        )
                    },
                    Opcode::Halt => (m, Event::Halt),
                }
            },
        }
    }
}

/// Up to `fuel` steps from `m`: the final state, the values printed, and how
/// the run ended.
pub open spec fn run(m: Machine, fuel: nat) -> (Machine, Seq<u32>, Status)
    decreases fuel,
{
    if fuel == 0 {
        (m, Seq::empty(), Status::OutOfFuel)
    } else {
        let (m2, e) = next(m);
        match e {
            Event::Continue => run(m2, (fuel - 1) as nat),
            Event::Print(v) => {
                let (m3, out, st) = run(m2, (fuel - 1) as nat);
                (m3, seq![v] + out, st)
            },
            Event::Halt => (m2, Seq::empty(), Status::Halted),
            Event::Fault(f) => (m2, Seq::empty(), Status::Faulted(f)),
        }
    }
}

/// The machine freshly loaded with `code`, about to execute at `entry`.
pub open spec fn initial(code: Seq<u32>, entry: nat) -> Machine {
    Machine { code, stack: Seq::empty(), acc: 0, ip: entry, fbp: 0 }
}

/// The outcome of loading a binary stream with an entry offset.
pub open spec fn load(b: Seq<u8>, entry: nat) -> Result<Machine, Fault> {
    if b.len() == 0 {
        Err(Fault::EmptyBinary)
    } else if b.len() % 4 != 0 {
        Err(Fault::TruncatedWord)
    } else if b.len() / 4 > u32::MAX {
        Err(Fault::BinaryTooLarge)
    } else if entry >= b.len() / 4 {
        Err(Fault::EntryOutOfRange)
    } else {
        Ok(initial(le_words(b), entry))
    }
}

/// What a run reports: the values printed, how it ended, and the registers
/// at the end.
#[derive(Debug)]
pub struct RunResult {
    pub output: Vec<u32>,
    pub status: Status,
    pub registers: Snapshot,
}

/// The registers of an abstract state.
pub open spec fn snapshot_of(m: Machine) -> Snapshot {
    Snapshot {
        accumulator: m.acc,
        instruction_pointer: m.ip as usize,
        stack_pointer: m.stack.len() as usize,
        frame_base_pointer: m.fbp as usize,
    }
}

/// A machine instance: code memory, operand stack and registers.
pub struct VirtualMachine {
    text: Vec<u32>,
    stack: Vec<u32>,
    reg0: u32,
    ip: usize,
    sbp: usize,
}

impl View for VirtualMachine {
    type V = Machine;

    closed spec fn view(&self) -> Machine {
        Machine {
            code: self.text@,
            stack: self.stack@,
            acc: self.reg0,
            ip: self.ip as nat,
            fbp: self.sbp as nat,
        }
    }
}

/// States a machine can be in: code addressable by 32-bit words and a stack
/// within its capacity.
pub open spec fn machine_wf(m: Machine) -> bool {
    &&& m.code.len() <= u32::MAX
    &&& m.stack.len() <= STACK_CAPACITY
    &&& m.ip <= u32::MAX
    &&& m.fbp <= STACK_CAPACITY
}

/// Every step keeps a machine well formed.
pub proof fn lemma_next_wf(m: Machine)
    requires
        machine_wf(m),
    ensures
        machine_wf(next(m).0),
{
}

/// A fault leaves the machine as it was.
pub proof fn lemma_fault_keeps_state(m: Machine)
    ensures
        next(m).1 is Fault ==> next(m).0 == m,
{
}

/// POP or RET on an empty operand stack reports an underflow and changes no
/// register, no stack word and no code word.
pub proof fn lemma_empty_stack_underflow(m: Machine)
    requires
        m.stack.len() == 0,
        m.ip < m.code.len(),
        m.code[m.ip as int] == code_of(Opcode::Pop) || m.code[m.ip as int] == code_of(Opcode::Ret),
    ensures
        next(m) == (m, Event::Fault(Fault::StackUnderflow)),
{
}

impl VirtualMachine {
    /// The machine's well-formedness.
    pub open spec fn wf(&self) -> bool {
        machine_wf(self@)
    }

    /// Loads a binary stream of little-endian words and sets execution to
    /// start at word `offset`, with zeroed registers and an empty stack.
    pub fn new(binary: &[u8], offset: usize) -> (r: Result<VirtualMachine, Fault>)
        ensures
            match (r, load(binary@, offset as nat)) {
                (Ok(vm), Ok(m)) => vm@ == m && vm.wf(),
                (Err(f), Err(g)) => f == g,
                _ => false,
            },
    {
        if binary.len() == 0 {
            return Err(Fault::EmptyBinary);
        }
        if binary.len() % 4 != 0 {
            return Err(Fault::TruncatedWord);
        }
        if binary.len() / 4 > 0xFFFF_FFFF {
            return Err(Fault::BinaryTooLarge);
        }
        if offset >= binary.len() / 4 {
            return Err(Fault::EntryOutOfRange);
        }
        let text = decode_words(binary);
        Ok(VirtualMachine { text, stack: Vec::new(), reg0: 0, ip: offset, sbp: 0 })
    }

    /// The current registers.
    pub fn snapshot(&self) -> (r: Snapshot)
        requires
            self.wf(),
        ensures
            r == snapshot_of(self@),
    {
        Snapshot {
            accumulator: self.reg0,
            instruction_pointer: self.ip,
            stack_pointer: self.stack.len(),
            frame_base_pointer: self.sbp,
        }
    }

    /// Executes one instruction, or reports why it cannot run.
    pub fn step(&mut self) -> (e: Event)
        requires
            old(self).wf(),
        ensures
            final(self).wf(),
            (final(self)@, e) == next(old(self)@),
    {
        if self.ip >= self.text.len() {
            return Event::Fault(Fault::IpOutOfBounds);
        }
        let op = match Opcode::decode(self.text[self.ip]) {
            None => return Event::Fault(Fault::IllegalOpcode),
            Some(op) => op,
        };
        if op.has_operand() && self.ip + 1 >= self.text.len() {
            return Event::Fault(Fault::IpOutOfBounds);
        }
        match op {
            Opcode::Add => {
                self.reg0 = self.reg0.wrapping_add(self.text[self.ip + 1]);
                self.ip = self.ip + 2;
                Event::Continue
            },
            Opcode::Sub => {
                self.reg0 = self.reg0.wrapping_sub(self.text[self.ip + 1]);
                self.ip = self.ip + 2;
                Event::Continue
            },
            Opcode::Print => {
                self.ip = self.ip + 1;
                Event::Print(self.reg0)
            },
            Opcode::Jmp => {
                self.ip = self.text[self.ip + 1] as usize;
                Event::Continue
            },
            Opcode::Push => {
                if self.stack.len() >= STACK_CAPACITY {
                    return Event::Fault(Fault::StackOverflow);
                }
                self.stack.push(self.reg0);
                self.ip = self.ip + 1;
                Event::Continue
            },
            Opcode::Pop => {
                match self.stack.pop() {
                    None => Event::Fault(Fault::StackUnderflow),
                    Some(v) => {
                        self.reg0 = v;
                        self.ip = self.ip + 1;
                        Event::Continue
                    },
                }
            },
            Opcode::SetAcc => {
                self.reg0 = self.text[self.ip + 1];
                self.ip = self.ip + 2;
                Event::Continue
            },
            Opcode::Call => {
                if self.stack.len() >= STACK_CAPACITY {
                    return Event::Fault(Fault::StackOverflow);
                }
                let target = self.text[self.ip + 1] as usize;
                self.sbp = self.stack.len();
                self.stack.push((self.ip + 2) as u32);
                self.ip = target;
                Event::Continue
            },
            Opcode::Ret => {
                match self.stack.pop() {
                    None => Event::Fault(Fault::StackUnderflow),
                    Some(v) => {
                        self.ip = v as usize;
                        Event::Continue
                    },
                }
            },
            Opcode::Halt => Event::Halt,
        }
    }

    /// Runs until HALT, a fault, or `fuel` steps, collecting printed values.
    pub fn run_vm(&mut self, fuel: u64) -> (r: RunResult)
        requires
            old(self).wf(),
        ensures
            final(self).wf(),
            (final(self)@, r.output@, r.status) == run(old(self)@, fuel as nat),
            r.registers == snapshot_of(final(self)@),
    {
        let mut output: Vec<u32> = Vec::new();
        let mut left: u64 = fuel;
        let mut status = Status::OutOfFuel;
        while left > 0
            invariant
                self.wf(),
                status == Status::OutOfFuel,
                ({
                    let (mf, out, st) = run(self@, left as nat);
                    run(old(self)@, fuel as nat) == (mf, output@ + out, st)
                }),
            decreases left,
        {
            let ghost before = self@;
            let e = self.step();
            proof {
                assert(run(before, left as nat) == match e {
                    Event::Continue => run(self@, (left - 1) as nat),
                    Event::Print(v) => {
                        let (m3, out, st) = run(self@, (left - 1) as nat);
                        (m3, seq![v] + out, st)
                    },
                    Event::Halt => (self@, Seq::empty(), Status::Halted),
                    Event::Fault(f) => (self@, Seq::empty(), Status::Faulted(f)),
                });
            }
            match e {
                Event::Continue => {},
                Event::Print(v) => {
                    proof {
                        let (m3, out, st) = run(self@, (left - 1) as nat);
                        assert(output@ + (seq![v] + out) =~= output@.push(v) + out);
                    }
                    output.push(v);
                },
                Event::Halt => {
                    proof {
                        assert(output@ + Seq::empty() =~= output@);
                    }
                    status = Status::Halted;
                    let registers = self.snapshot();
                    return RunResult { output, status, registers };
                },
                Event::Fault(f) => {
                    proof {
                        assert(output@ + Seq::empty() =~= output@);
                    }
                    status = Status::Faulted(f);
                    let registers = self.snapshot();
                    return RunResult { output, status, registers };
                },
            }
            left = left - 1;
        }
        proof {
            assert(output@ + Seq::empty() =~= output@);
        }
        let registers = self.snapshot();
        RunResult { output, status, registers }
    }
}

/// Loads a binary stream and runs it for at most `fuel` steps.
pub fn load_and_run(binary: &[u8], offset: usize, fuel: u64) -> (r: Result<RunResult, Fault>)
    ensures
        match (r, load(binary@, offset as nat)) {
            (Ok(res), Ok(m)) => {
                let (mf, out, st) = run(m, fuel as nat);
                &&& res.output@ == out
                &&& res.status == st
                &&& res.registers == snapshot_of(mf)
            },
            (Err(f), Err(g)) => f == g,
            _ => false,
        },
{
    let mut vm = VirtualMachine::new(binary, offset)?;
    Ok(vm.run_vm(fuel))
}

} // verus!
