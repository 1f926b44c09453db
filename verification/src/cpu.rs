//! The execution engine: a program, an instruction cursor, a byte tape and
//! a data cursor.

use crate::program::{
    find_loop_end, find_loop_start, is_program, loop_end, loop_start, DECREMENT, INCREMENT, INPUT,
    LOOP_CLOSE, LOOP_OPEN, MOVE_LEFT, MOVE_RIGHT, OUTPUT,
};
use vstd::prelude::*;

verus! {

/// The smallest tape that an engine can be built with.
pub const MINIMUM_MEMORY_SIZE: usize = 30_000;

/// Why a run was aborted.
#[derive(Clone, Copy, Debug, PartialEq, Eq, Structural)]
pub enum Fault {
    /// `>` was executed on the last cell of the tape.
    DataPointerOverflow,
    /// `<` was executed on the first cell of the tape.
    DataPointerUnderflow,
    /// `,` was executed: the engine has no input.
    InputUnsupported,
}

impl Fault {
    /// The text that describes the fault.
    pub open spec fn text(self) -> Seq<char> {
        match self {
            Fault::DataPointerOverflow => "Data pointer exceeded memory range"@,
            Fault::DataPointerUnderflow => "Tried to access memory at DP < 0"@,
            Fault::InputUnsupported => "input not implemented"@,
        }
    }

    /// The text that describes the fault.
    pub fn message(&self) -> (s: &'static str)
        ensures
            s@ == self.text(),
    {
        match self {
            Fault::DataPointerOverflow => "Data pointer exceeded memory range",
            Fault::DataPointerUnderflow => "Tried to access memory at DP < 0",
            Fault::InputUnsupported => "input not implemented",
        }
    }
}

/// What one call of [`CPU::step`] did.
#[derive(Clone, Copy, Debug, PartialEq, Eq, Structural)]
pub enum Step {
    /// An instruction was executed and nothing is to be written.
    Advanced,
    /// An output instruction was executed: the byte is to be written.
    Output(u8),
    /// The instruction cursor is at the end of the program.
    Finished,
    /// The instruction at the cursor cannot be executed.
    Faulted(Fault),
}

/// Where an engine stands.
#[derive(Clone, Copy, Debug, PartialEq, Eq, Structural)]
pub enum Status {
    /// The instruction under the cursor can be executed.
    Running,
    /// The program has run to its end.
    Finished,
    /// The instruction under the cursor faults.
    Faulted(Fault),
}

/// The mathematical state of an engine.
pub struct Machine {
    /// The program.
    pub code: Seq<u8>,
    /// The instruction cursor.
    pub ip: int,
    /// The tape.
    pub memory: Seq<u8>,
    /// The data cursor.
    pub dp: int,
}

impl Machine {
    /// The program is valid, the instruction cursor is within the program
    /// or just behind it, and the data cursor is on the tape.
    pub open spec fn wf(self) -> bool {
        &&& is_program(self.code)
        &&& 0 <= self.ip <= self.code.len()
        &&& self.memory.len() >= MINIMUM_MEMORY_SIZE
        &&& 0 <= self.dp < self.memory.len()
    }

    /// The state that an engine starts in.
    pub open spec fn initial(memory_size: nat, code: Seq<u8>) -> Machine {
        Machine { code, ip: 0, memory: Seq::new(memory_size, |i: int| 0u8), dp: 0 }
    }

    /// The cell under the data cursor.
    pub open spec fn cell(self) -> u8 {
        self.memory[self.dp]
    }

    /// The instruction under the instruction cursor.
    pub open spec fn instruction(self) -> u8 {
        self.code[self.ip]
    }

    /// The program has run to its end.
    pub open spec fn finished(self) -> bool {
        self.ip == self.code.len()
    }

    /// The fault that the instruction under the cursor raises, if it
    /// raises one.
    pub open spec fn fault(self) -> Option<Fault> {
        if self.finished() {
            None
        } else if self.instruction() == MOVE_RIGHT && self.dp + 1 >= self.memory.len() {
            Some(Fault::DataPointerOverflow)
        } else if self.instruction() == MOVE_LEFT && self.dp == 0 {
            Some(Fault::DataPointerUnderflow)
        } else if self.instruction() == INPUT {
            Some(Fault::InputUnsupported)
        } else {
            None
        }
    }

    /// What executing the instruction under the cursor reports.
    pub open spec fn event(self) -> Step {
        if self.finished() {
            Step::Finished
        } else if let Some(f) = self.fault() {
            Step::Faulted(f)
        } else if self.instruction() == OUTPUT {
            Step::Output(self.cell())
        } else {
            Step::Advanced
        }
    }

    /// The byte that executing the instruction under the cursor writes,
    /// as a sequence of one byte or none.
    pub open spec fn emitted(self) -> Seq<u8> {
        match self.event() {
            Step::Output(b) => seq![b],
            _ => Seq::empty(),
        }
    }

    /// Whether the machine is at its end, stuck on a fault, or can go on.
    pub open spec fn status(self) -> Status {
        if self.finished() {
            Status::Finished
        } else if let Some(f) = self.fault() {
            Status::Faulted(f)
        } else {
            Status::Running
        }
    }

    /// The state after `n` steps.
    pub open spec fn steps(self, n: nat) -> Machine
        decreases n,
    {
        if n == 0 {
            self
        } else {
            self.steps((n - 1) as nat).next()
        }
    }

    /// The bytes written by the first `n` steps, in order.
    pub open spec fn output(self, n: nat) -> Seq<u8>
        decreases n,
    {
        if n == 0 {
            Seq::empty()
        } else {
            self.output((n - 1) as nat) + self.steps((n - 1) as nat).emitted()
        }
    }

    /// The state after executing the instruction under the cursor. A
    /// finished machine and one whose instruction faults stay as they are.
    pub open spec fn next(self) -> Machine {
        let c = self.instruction();
        if self.finished() || self.fault().is_some() {
            self
        } else if c == INCREMENT {
            Machine {
                ip: self.ip + 1,
                memory: self.memory.update(self.dp, wrapping_succ(self.cell())),
                ..self
            }
        } else if c == DECREMENT {
            Machine {
                ip: self.ip + 1,
                memory: self.memory.update(self.dp, wrapping_pred(self.cell())),
                ..self
            }
        } else if c == MOVE_RIGHT {
            Machine { ip: self.ip + 1, dp: self.dp + 1, ..self }
        } else if c == MOVE_LEFT {
            Machine { ip: self.ip + 1, dp: self.dp - 1, ..self }
        } else if c == LOOP_OPEN && self.cell() == 0 {
            Machine { ip: loop_end(self.code, self.ip) + 1, ..self }
        } else if c == LOOP_CLOSE && self.cell() != 0 {
            Machine { ip: loop_start(self.code, self.ip) + 1, ..self }
        } else {
            Machine { ip: self.ip + 1, ..self }
        }
    }
}

/// The cell value after `+`: one more, and 0 after 255.
pub open spec fn wrapping_succ(v: u8) -> u8 {
    if v == 255 {
        0
    } else {
        (v + 1) as u8
    }
}

/// The cell value after `-`: one less, and 255 after 0.
pub open spec fn wrapping_pred(v: u8) -> u8 {
    if v == 0 {
        255
    } else {
        (v - 1) as u8
    }
}

/// The cell value after `n` times `+`.
pub open spec fn succ_times(v: u8, n: nat) -> u8
    decreases n,
{
    if n == 0 {
        v
    } else {
        wrapping_succ(succ_times(v, (n - 1) as nat))
    }
}

/// `n` times `+` add `n` modulo 256.
proof fn lemma_succ_times(v: u8, n: nat)
    ensures
        succ_times(v, n) == (v + n) % 256,
    decreases n,
{
    if n > 0 {
        lemma_succ_times(v, (n - 1) as nat);
    }
}

/// Cell arithmetic wraps around: 256 times `+` give the value back, `-` on
/// 0 gives 255, and `+` and `-` undo each other.
pub proof fn lemma_cell_wraps(v: u8)
    ensures
        succ_times(v, 256) == v,
        wrapping_pred(0) == 255,
        wrapping_succ(255) == 0,
        wrapping_pred(wrapping_succ(v)) == v,
        wrapping_succ(wrapping_pred(v)) == v,
{
    lemma_succ_times(v, 256);
}

/// A machine in front of `n` times `+` has, `n` steps later, passed them,
/// added `n` to the current cell modulo 256, written nothing and changed
/// nothing else.
pub proof fn lemma_increments(m: Machine, n: nat)
    requires
        m.wf(),
        m.ip + n <= m.code.len(),
        forall|k: int| m.ip <= k < m.ip + n ==> m.code[k] == INCREMENT,
    ensures
        m.steps(n) == (Machine {
            ip: m.ip + n,
            memory: m.memory.update(m.dp, succ_times(m.cell(), n)),
            ..m
        }),
        m.output(n) == Seq::<u8>::empty(),
    decreases n,
{
    if n == 0 {
        assert(m.memory.update(m.dp, m.cell()) =~= m.memory);
    } else {
        let before = (n - 1) as nat;
        lemma_increments(m, before);
        let s = m.steps(before);
        assert(s.instruction() == INCREMENT);
        assert(s.next().memory =~= m.memory.update(m.dp, succ_times(m.cell(), n)));
        assert(m.output(n) =~= Seq::<u8>::empty());
    }
}

/// 256 times `+` in a row leave the whole tape as it was.
pub proof fn lemma_256_increments(m: Machine)
    requires
        m.wf(),
        m.ip + 256 <= m.code.len(),
        forall|k: int| m.ip <= k < m.ip + 256 ==> m.code[k] == INCREMENT,
    ensures
        m.steps(256) == (Machine { ip: m.ip + 256, ..m }),
        m.output(256) == Seq::<u8>::empty(),
{
    lemma_increments(m, 256);
    lemma_cell_wraps(m.cell());
    assert(m.memory.update(m.dp, m.cell()) =~= m.memory);
}

/// A machine that is finished or stuck on a fault stays as it is and
/// writes nothing, however many more steps it is given.
pub proof fn lemma_halted_stays(m: Machine, k: nat, n: nat)
    requires
        k <= n,
        m.steps(k).status() != Status::Running,
    ensures
        m.steps(n) == m.steps(k),
        m.output(n) == m.output(k),
    decreases n,
{
    if k < n {
        lemma_halted_stays(m, k, (n - 1) as nat);
        assert(m.output(n) =~= m.output(k));
    }
}

/// The engine.
pub struct CPU {
    code: Vec<u8>,
    ip: usize,
    memory: Vec<u8>,
    dp: usize,
}

/// What [`CPU::run`] hands back.
pub struct Execution {
    /// The engine as the run left it.
    pub cpu: CPU,
    /// The bytes that the run wrote, in order.
    pub output: Vec<u8>,
    /// Where the engine stood when the run ended: still running only if
    /// the step limit was reached.
    pub status: Status,
}

impl View for CPU {
    type V = Machine;

    closed spec fn view(&self) -> Machine {
        Machine { code: self.code@, ip: self.ip as int, memory: self.memory@, dp: self.dp as int }
    }
}

impl CPU {
    #[verifier::type_invariant]
    spec fn inv(self) -> bool {
        self@.wf()
    }

    /// An engine at the start of `code`, with a tape of `memory_size` zero
    /// cells and the data cursor on the first of them.
    pub fn new(memory_size: usize, code: Vec<u8>) -> (cpu: Self)
        requires
            memory_size >= MINIMUM_MEMORY_SIZE,
            is_program(code@),
        ensures
            cpu@ == Machine::initial(memory_size as nat, code@),
            cpu@.wf(),
    {
        let memory: Vec<u8> = vec![0u8; memory_size];
        assert(memory@ =~= Seq::new(memory_size as nat, |i: int| 0u8));
        Self { code, ip: 0, memory, dp: 0 }
    }

    /// The instruction cursor.
    pub fn ip(&self) -> (ip: usize)
        ensures
            ip == self@.ip,
    {
        self.ip
    }

    /// The data cursor.
    pub fn dp(&self) -> (dp: usize)
        ensures
            dp == self@.dp,
    {
        self.dp
    }

    /// The program.
    pub fn code(&self) -> (code: &Vec<u8>)
        ensures
            code@ == self@.code,
    {
        &self.code
    }

    /// The tape.
    pub fn memory(&self) -> (memory: &Vec<u8>)
        ensures
            memory@ == self@.memory,
    {
        &self.memory
    }

    /// The cell under the data cursor.
    pub fn read_data(&self) -> (v: u8)
        ensures
            v == self@.cell(),
    {
        proof {
            use_type_invariant(self);
        }
        self.memory[self.dp]
    }

    /// Executes the instruction under the cursor and reports what
    /// happened. At the end of the program, and on an instruction that
    /// faults, the engine is left as it was.
    pub fn step(&mut self) -> (ev: Step)
        ensures
            ev == old(self)@.event(),
            final(self)@ == old(self)@.next(),
            final(self)@.wf(),
    {
        proof {
            use_type_invariant(&*self);
        }
        if self.ip == self.code.len() {
            return Step::Finished;
        }
        let instruction: u8 = self.code[self.ip];
        let cell: u8 = self.memory[self.dp];
        if instruction == INCREMENT {
            self.memory[self.dp] = cell.wrapping_add(1);
            self.ip += 1;
            assert(self@.memory =~= old(self)@.next().memory);
            Step::Advanced
        } else if instruction == DECREMENT {
            self.memory[self.dp] = cell.wrapping_sub(1);
            self.ip += 1;
            assert(self@.memory =~= old(self)@.next().memory);
            Step::Advanced
        } else if instruction == MOVE_RIGHT {
            if self.dp >= self.memory.len() - 1 {
                return Step::Faulted(Fault::DataPointerOverflow);
            }
            self.dp += 1;
            self.ip += 1;
            Step::Advanced
        } else if instruction == MOVE_LEFT {
            if self.dp == 0 {
                return Step::Faulted(Fault::DataPointerUnderflow);
            }
            self.dp -= 1;
            self.ip += 1;
            Step::Advanced
        } else if instruction == OUTPUT {
            self.ip += 1;
            Step::Output(cell)
        } else if instruction == INPUT {
            Step::Faulted(Fault::InputUnsupported)
        } else if instruction == LOOP_OPEN {
            if cell == 0 {
                self.ip = find_loop_end(&self.code, self.ip) + 1;
            } else {
                self.ip += 1;
            }
            Step::Advanced
        } else {
            if cell != 0 {
                self.ip = find_loop_start(&self.code, self.ip) + 1;
            } else {
                self.ip += 1;
            }
            Step::Advanced
        }
    }

    /// Executes instructions until the program ends, an instruction
    /// faults, or `max_steps` of them have been executed.
    pub fn run(self, max_steps: usize) -> (r: Execution)
        ensures
            r.cpu@ == self@.steps(max_steps as nat),
            r.cpu@.wf(),
            r.output@ == self@.output(max_steps as nat),
            r.status == r.cpu@.status(),
    {
        let ghost start = self@;
        let mut cpu = self;
        let mut output: Vec<u8> = Vec::new();
        let mut done: usize = 0;
        proof {
            use_type_invariant(&cpu);
        }
        while done < max_steps
            invariant
                start == self@,
                done <= max_steps,
                cpu@ == start.steps(done as nat),
                cpu@.wf(),
                output@ == start.output(done as nat),
            decreases max_steps - done,
        {
            match cpu.step() {
                Step::Advanced => {},
                Step::Output(b) => {
                    output.push(b);
                },
                Step::Finished => {
                    proof {
                        lemma_halted_stays(start, done as nat, max_steps as nat);
                    }
                    return Execution { cpu, output, status: Status::Finished };
                },
                Step::Faulted(f) => {
                    proof {
                        lemma_halted_stays(start, done as nat, max_steps as nat);
                    }
                    return Execution { cpu, output, status: Status::Faulted(f) };
                },
            }
            done += 1;
            assert(output@ =~= start.output(done as nat));
        }
        let status = cpu.status();
        Execution { cpu, output, status }
    }

    /// Whether the engine is at its end, stuck on a fault, or can go on.
    /// Every engine is well formed.
    pub fn status(&self) -> (s: Status)
        ensures
            s == self@.status(),
            self@.wf(),
    {
        proof {
            use_type_invariant(self);
        }
        if self.ip == self.code.len() {
            return Status::Finished;
        }
        let instruction: u8 = self.code[self.ip];
        if instruction == MOVE_RIGHT && self.dp >= self.memory.len() - 1 {
            Status::Faulted(Fault::DataPointerOverflow)
        } else if instruction == MOVE_LEFT && self.dp == 0 {
            Status::Faulted(Fault::DataPointerUnderflow)
        } else if instruction == INPUT {
            Status::Faulted(Fault::InputUnsupported)
        } else {
            Status::Running
        }
    }
}

} // verus!
