use vstd::prelude::*;

use crate::brackets::{
    build_bracket_map, has_unmatched_end, has_unmatched_start, is_balanced, is_jump_table,
    is_matching_pair, BracketError,
};
use crate::instruction::{filter_commands, program_of, Instruction};

verus! {

/// Number of cells on the tape.
pub const TAPE_LEN: usize = 30000;

/// The abstract state of a run: the program, its jump table, the tape, the
/// data pointer and the instruction pointer.
pub struct MachineState {
    pub program: Seq<Instruction>,
    pub jumps: Seq<Option<usize>>,
    pub tape: Seq<u8>,
    pub ptr: int,
    pub loc: int,
}

impl MachineState {
    /// The state a run of `program` starts in.
    pub open spec fn initial(program: Seq<Instruction>, jumps: Seq<Option<usize>>) -> MachineState {
        MachineState { program, jumps, tape: Seq::new(TAPE_LEN as nat, |i: int| 0u8), ptr: 0, loc: 0 }
    }

    /// The jump table belongs to the program, the tape has its fixed length,
    /// the data pointer is on the tape, and the instruction pointer is at
    /// most one past the last instruction.
    pub open spec fn wf(self) -> bool {
        &&& is_jump_table(self.program, self.jumps)
        &&& self.tape.len() == TAPE_LEN
        &&& 0 <= self.ptr < TAPE_LEN
        &&& 0 <= self.loc <= self.program.len()
    }

    /// The instruction pointer has run past the end of the program.
    pub open spec fn is_halted(self) -> bool {
        self.loc >= self.program.len()
    }

    /// The instruction under the instruction pointer.
    pub open spec fn current(self) -> Instruction {
        self.program[self.loc]
    }

    /// The cell under the data pointer.
    pub open spec fn cell(self) -> u8 {
        self.tape[self.ptr]
    }

    /// The state after executing the current instruction; `input` is the
    /// byte an `Input` reads, `None` at end of input.
    pub open spec fn next(self, input: Option<u8>) -> MachineState {
        let after = self.loc + 1;
        match self.current() {
            Instruction::MoveRight => MachineState {
                ptr: if self.ptr + 1 < TAPE_LEN {
                    self.ptr + 1
                } else {
                    TAPE_LEN - 1
                },
                loc: after,
                ..self
            },
            Instruction::MoveLeft => MachineState {
                ptr: if self.ptr > 0 {
                    self.ptr - 1
                } else {
                    0
                },
                loc: after,
                ..self
            },
            Instruction::Increment => MachineState {
                tape: self.tape.update(self.ptr, ((self.cell() + 1) % 256) as u8),
                loc: after,
                ..self
            },
            Instruction::Decrement => MachineState {
                tape: self.tape.update(self.ptr, ((self.cell() + 255) % 256) as u8),
                loc: after,
                ..self
            },
            Instruction::Output => MachineState { loc: after, ..self },
            Instruction::Input => MachineState {
                tape: self.tape.update(
                    self.ptr,
                    match input {
                        Some(b) => b,
                        None => 0u8,
                    },
                ),
                loc: after,
                ..self
            },
            Instruction::LoopStart => MachineState {
                loc: if self.cell() == 0 {
                    self.jumps[self.loc]->0 + 1
                } else {
                    after
                },
                ..self
            },
            Instruction::LoopEnd => MachineState {
                loc: if self.cell() != 0 {
                    self.jumps[self.loc]->0 + 1
                } else {
                    after
                },
                ..self
            },
        }
    }

    /// At most `fuel` steps on the byte stream `input`, stopping early once
    /// halted: the state reached, the input left unread, and the bytes written.
    pub open spec fn run(self, input: Seq<u8>, fuel: nat) -> (MachineState, Seq<u8>, Seq<u8>)
        decreases fuel,
    {
        if fuel == 0 || self.is_halted() {
            (self, input, Seq::empty())
        } else {
            let byte = if input.len() > 0 {
                Some(input[0])
            } else {
                None
            };
            let (read, rest) = if self.current() == Instruction::Input {
                (byte, if input.len() > 0 {
                    input.drop_first()
                } else {
                    input
                })
            } else {
                (None, input)
            };
            let out = if self.current() == Instruction::Output {
                seq![self.cell()]
            } else {
                Seq::empty()
            };
            let (s, left, more) = self.next(read).run(rest, (fuel - 1) as nat);
            (s, left, out + more)
        }
    }
}

/// Executing one instruction keeps a state well formed.
pub proof fn lemma_next_wf(s: MachineState, input: Option<u8>)
    requires
        s.wf(),
        !s.is_halted(),
    ensures
        s.next(input).wf(),
{
    let p = s.program;
    if p[s.loc] == Instruction::LoopStart || p[s.loc] == Instruction::LoopEnd {
        assert(s.jumps[s.loc] is Some);
    }
}

/// What the caller must do after a step.
#[derive(Clone, Copy, Debug, PartialEq, Eq, Structural)]
pub enum Action {
    /// The program has ended; nothing was executed.
    Halt,
    /// An instruction without input or output was executed.
    Continue,
    /// An `Output` was executed: emit this byte.
    Write(u8),
    /// The next instruction is an `Input`: read a byte and hand it to `feed`.
    Read,
}

/// A program loaded for execution, with its tape and both pointers.
pub struct Machine {
    program: Vec<Instruction>,
    jumps: Vec<Option<usize>>,
    tape: Vec<u8>,
    ptr: usize,
    loc: usize,
}

impl View for Machine {
    type V = MachineState;

    closed spec fn view(&self) -> MachineState {
        MachineState {
            program: self.program@,
            jumps: self.jumps@,
            tape: self.tape@,
            ptr: self.ptr as int,
            loc: self.loc as int,
        }
    }
}

impl Machine {
    /// The machine's state is well formed.
    pub open spec fn wf(&self) -> bool {
        self@.wf()
    }

    /// Resolves the brackets of `program` and sets up a zeroed tape with both
    /// pointers at zero. Fails, and yields no machine, when the brackets do
    /// not pair up.
    pub fn new(program: Vec<Instruction>) -> (r: Result<Machine, BracketError>)
        ensures
            match r {
                Ok(m) => is_balanced(program@) && m.wf() && m@ == MachineState::initial(
                    program@,
                    m@.jumps,
                ),
                Err(BracketError::UnmatchedLoopEnd) => has_unmatched_end(program@),
                Err(BracketError::UnmatchedLoopStart) => has_unmatched_start(program@),
            },
    {
        let jumps = match build_bracket_map(program.as_slice()) {
            Ok(map) => map,
            Err(e) => return Err(e),
        };
        let mut tape: Vec<u8> = Vec::new();
        let mut i: usize = 0;
        while i < TAPE_LEN
            invariant
                i <= TAPE_LEN,
                tape@.len() == i,
                forall|k: int| 0 <= k < i ==> tape@[k] == 0u8,
            decreases TAPE_LEN - i,
        {
            tape.push(0u8);
            i += 1;
        }
        let m = Machine { program, jumps, tape, ptr: 0, loc: 0 };
        assert(m@.tape =~= MachineState::initial(m@.program, m@.jumps).tape);
        Ok(m)
    }

    /// The instruction sequence of `source` (see `filter_commands`), loaded
    /// as by `new`.
    pub fn from_source(source: &[u8]) -> (r: Result<Machine, BracketError>)
        ensures
            match r {
                Ok(m) => is_balanced(program_of(source@)) && m.wf()
                    && m@ == MachineState::initial(program_of(source@), m@.jumps),
                Err(BracketError::UnmatchedLoopEnd) => has_unmatched_end(program_of(source@)),
                Err(BracketError::UnmatchedLoopStart) => has_unmatched_start(program_of(source@)),
            },
    {
        Machine::new(filter_commands(source))
    }

    /// The partner of the bracket under the instruction pointer.
    fn jump_target(&self) -> (r: usize)
        requires
            self.wf(),
            !self@.is_halted(),
            self@.current() == Instruction::LoopStart || self@.current() == Instruction::LoopEnd,
        ensures
            Some(r) == self@.jumps[self@.loc],
            r < self@.program.len(),
    {
        let ghost p = self@.program;
        assert(self@.jumps[self@.loc] is Some);
        let r = self.jumps[self.loc].unwrap();
        proof {
            if p[self.loc as int] == Instruction::LoopStart {
                assert(is_matching_pair(p, self.loc as int, r as int));
            } else {
                assert(self.jumps@[self.loc as int] matches Some(i) && is_matching_pair(
                    p,
                    i as int,
                    self.loc as int,
                ));
            }
        }
        r
    }

    /// Executes `self@.next(input)` in place.
    fn execute(&mut self, input: Option<u8>)
        requires
            old(self).wf(),
            !old(self)@.is_halted(),
        ensures
            final(self)@ == old(self)@.next(input),
            final(self).wf(),
    {
        proof {
            lemma_next_wf(self@, input);
        }
        let ptr = self.ptr;
        match self.program[self.loc] {
            Instruction::MoveRight => {
                if ptr + 1 < TAPE_LEN {
                    self.ptr = ptr + 1;
                }
            },
            Instruction::MoveLeft => {
                self.ptr = ptr.saturating_sub(1);
            },
            Instruction::Increment => {
                let v = self.tape[ptr].wrapping_add(1);
                self.tape.set(ptr, v);
            },
            Instruction::Decrement => {
                let v = self.tape[ptr].wrapping_sub(1);
                self.tape.set(ptr, v);
            },
            Instruction::Output => {},
            Instruction::Input => {
                let v = match input {
                    Some(b) => b,
                    None => 0u8,
                };
                self.tape.set(ptr, v);
            },
            Instruction::LoopStart => {
                if self.tape[ptr] == 0 {
                    self.loc = self.jump_target();
                }
            },
            Instruction::LoopEnd => {
                if self.tape[ptr] != 0 {
                    self.loc = self.jump_target();
                }
            },
        }
        let len = self.program.len();
        assert(self.loc < len);
        self.loc = self.loc + 1;
    }
    /// Whether the instruction pointer has run past the end of the program.
    pub fn is_halted(&self) -> (r: bool)
        requires
            self.wf(),
        ensures
            r == self@.is_halted(),
    {
        self.loc >= self.program.len()
    }

    /// Executes the instruction under the instruction pointer, unless the
    /// program has ended or that instruction is an `Input`: then nothing
    /// changes, and the action says so (`Read` asks for a call of `feed`).
    pub fn step(&mut self) -> (r: Action)
        requires
            old(self).wf(),
        ensures
            final(self).wf(),
            old(self)@.is_halted() ==> r == Action::Halt && final(self)@ == old(self)@,
            !old(self)@.is_halted() && old(self)@.current() == Instruction::Input ==> r == Action::Read
                && final(self)@ == old(self)@,
            !old(self)@.is_halted() && old(self)@.current() != Instruction::Input ==> final(self)@
                == old(self)@.next(None) && r == (if old(self)@.current() == Instruction::Output {
                Action::Write(old(self)@.cell())
            } else {
                Action::Continue
            }),
    {
        if self.is_halted() {
            return Action::Halt;
        }
        match self.program[self.loc] {
            Instruction::Input => Action::Read,
            Instruction::Output => {
                let b = self.tape[self.ptr];
                self.execute(None);
                Action::Write(b)
            },
            _ => {
                self.execute(None);
                Action::Continue
            },
        }
    }

    /// Executes the `Input` under the instruction pointer with the byte read,
    /// or with `None` at end of input, which stores zero.
    pub fn feed(&mut self, byte: Option<u8>)
        requires
            old(self).wf(),
            !old(self)@.is_halted(),
            old(self)@.current() == Instruction::Input,
        ensures
            final(self).wf(),
            final(self)@ == old(self)@.next(byte),
    {
        self.execute(byte);
    }

    /// Runs at most `max_steps` instructions, reading from `input` and
    /// returning what was written; stops early when the program ends.
    pub fn run(&mut self, input: &[u8], max_steps: usize) -> (r: Vec<u8>)
        requires
            old(self).wf(),
        ensures
            final(self).wf(),
            final(self)@ == old(self)@.run(input@, max_steps as nat).0,
            r@ == old(self)@.run(input@, max_steps as nat).2,
    {
        let ghost goal = self@.run(input@, max_steps as nat);
        let mut out: Vec<u8> = Vec::new();
        let mut pos: usize = 0;
        let mut k: usize = 0;
        assert(input@.subrange(0, input@.len() as int) =~= input@);
        while k < max_steps && !self.is_halted()
            invariant
                self.wf(),
                pos <= input@.len(),
                k <= max_steps,
                self@.run(input@.subrange(pos as int, input@.len() as int), (max_steps - k) as nat).0
                    == goal.0,
                out@ + self@.run(input@.subrange(pos as int, input@.len() as int), (max_steps
                    - k) as nat).2 == goal.2,
            decreases max_steps - k,
        {
            let ghost rest = input@.subrange(pos as int, input@.len() as int);
            let ghost fuel = (max_steps - k) as nat;
            match self.step() {
                Action::Halt => {},
                Action::Continue => {},
                Action::Write(b) => {
                    out.push(b);
                },
                Action::Read => {
                    let byte = if pos < input.len() {
                        let b = input[pos];
                        pos = pos + 1;
                        assert(input@.subrange(pos as int, input@.len() as int) =~= rest.drop_first());
                        Some(b)
                    } else {
                        None
                    };
                    self.feed(byte);
                },
            }
            assert(out@ + self@.run(input@.subrange(pos as int, input@.len() as int), (fuel
                - 1) as nat).2 =~= goal.2);
            k = k + 1;
        }
        assert(out@ + Seq::<u8>::empty() =~= out@);
        out
    }

    /// The index of the current cell.
    pub fn data_pointer(&self) -> (r: usize)
        ensures
            r == self@.ptr,
    {
        self.ptr
    }

    /// The index of the next instruction to execute.
    pub fn instruction_pointer(&self) -> (r: usize)
        ensures
            r == self@.loc,
    {
        self.loc
    }

    /// The cells of the tape.
    pub fn tape(&self) -> (r: &[u8])
        ensures
            r@ == self@.tape,
    {
        self.tape.as_slice()
    }

    /// The instruction sequence being executed.
    pub fn program(&self) -> (r: &[Instruction])
        ensures
            r@ == self@.program,
    {
        self.program.as_slice()
    }
}

/// Cell arithmetic wraps: `Increment` takes a cell at 255 to 0, and
/// `Decrement` takes a cell at 0 to 255.
pub proof fn lemma_cell_wraps(s: MachineState, input: Option<u8>)
    requires
        s.wf(),
        !s.is_halted(),
    ensures
        s.current() == Instruction::Increment && s.cell() == 255 ==> s.next(input).cell() == 0,
        s.current() == Instruction::Decrement && s.cell() == 0 ==> s.next(input).cell() == 255,
{
}

/// The data pointer saturates: from the first cell, any run of `MoveLeft`
/// leaves it at the first cell, and from the last cell any run of
/// `MoveRight` leaves it at the last cell.
pub proof fn lemma_pointer_saturates(s: MachineState, input: Seq<u8>, n: nat)
    requires
        s.wf(),
        s.loc + n <= s.program.len(),
        (s.ptr == 0 && forall|k: int| s.loc <= k < s.loc + n ==> s.program[k] == Instruction::MoveLeft)
            || (s.ptr == TAPE_LEN - 1 && forall|k: int|
            s.loc <= k < s.loc + n ==> s.program[k] == Instruction::MoveRight),
    ensures
        s.run(input, n).0.ptr == s.ptr,
        s.run(input, n).0.loc == s.loc + n,
        s.run(input, n).0.tape == s.tape,
    decreases n,
{
    if n > 0 {
        let t = s.next(None);
        lemma_next_wf(s, None);
        assert(s.program[s.loc] == s.current());
        lemma_pointer_saturates(t, input, (n - 1) as nat);
    }
}

} // verus!
