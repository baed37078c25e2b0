//! A three-register machine with eight instructions, run for a bounded number of steps.
use vstd::prelude::*;

verus! {

/// A three-register machine that runs a program of 3-bit opcodes and operands.
#[derive(Clone, Debug)]
pub struct Computer {
    pub a: i64,
    pub b: i64,
    pub c: i64,
    pub output: Vec<i64>,
    pub instructions: Vec<i64>,
    pub pointer: usize,
}

/// What a `Computer` holds, as plain values.
pub struct CpuState {
    pub a: i64,
    pub b: i64,
    pub c: i64,
    pub output: Seq<i64>,
    pub program: Seq<i64>,
    pub pointer: int,
}

/// How a bounded run ended.
#[derive(Clone, Copy, Debug, PartialEq, Eq)]
pub enum Halt {
    /// The pointer left the program.
    Finished,
    /// The next instruction has no meaning: an unknown opcode, an operand 7 read as a combo
    /// operand, a shift by a negative amount or by 64 or more, or a jump to an address that
    /// is negative or beyond `usize`.
    Fault,
    /// The step budget ran out first.
    StepLimit,
}

impl Computer {
    pub open spec fn state(&self) -> CpuState {
        CpuState {
            a: self.a,
            b: self.b,
            c: self.c,
            output: self.output@,
            program: self.instructions@,
            pointer: self.pointer as int,
        }
    }
}

/// Value of operand `v` read as a combo operand.
pub open spec fn combo(s: CpuState, v: i64) -> i64 {
    if 0 <= v <= 3 {
        v
    } else if v == 4 {
        s.a
    } else if v == 5 {
        s.b
    } else {
        s.c
    }
}

/// `x % 8` rounded towards zero, as Rust's `%` on signed integers does.
pub open spec fn rem8(x: i64) -> i64 {
    if x >= 0 {
        (x % 8) as i64
    } else {
        (-((-x) % 8)) as i64
    }
}

pub open spec fn shift_ok(n: i64) -> bool {
    0 <= n < 64
}

/// Whether `instr` with operand `literal` can run in state `s`.
pub open spec fn can_run(s: CpuState, instr: i64, literal: i64) -> bool {
    let uses_combo = instr == 0 || instr == 2 || instr == 5 || instr == 6 || instr == 7;
    let shifts = instr == 0 || instr == 6 || instr == 7;
    &&& 0 <= instr <= 7
    &&& uses_combo ==> 0 <= literal <= 6
    &&& shifts ==> shift_ok(combo(s, literal))
    &&& (instr == 3 && s.a != 0) ==> 0 <= literal <= usize::MAX
}

/// The state after running `instr` with operand `literal`.
pub open spec fn execute(s: CpuState, instr: i64, literal: i64) -> CpuState {
    let n = combo(s, literal);
    let next = CpuState { pointer: s.pointer + 2, ..s };
    if instr == 0 {
        CpuState { a: s.a >> (n as u32), ..next }
    } else if instr == 1 {
        CpuState { b: s.b ^ literal, ..next }
    } else if instr == 2 {
        CpuState { b: rem8(n), ..next }
    } else if instr == 3 {
        if s.a != 0 {
            CpuState { pointer: literal as int, ..s }
        } else {
            next
        }
    } else if instr == 4 {
        CpuState { b: s.b ^ s.c, ..next }
    } else if instr == 5 {
        CpuState { output: s.output.push(rem8(n)), ..next }
    } else if instr == 6 {
        CpuState { b: s.a >> (n as u32), ..next }
    } else {
        CpuState { c: s.a >> (n as u32), ..next }
    }
}

/// Whether an opcode and its operand are left at the pointer.
pub open spec fn has_next(s: CpuState) -> bool {
    0 <= s.pointer && s.pointer + 1 < s.program.len()
}

/// The state after at most `fuel` instructions, and how the run ended.
pub open spec fn run(s: CpuState, fuel: nat) -> (CpuState, Halt)
    decreases fuel,
{
    if !has_next(s) {
        (s, Halt::Finished)
    } else if !can_run(s, s.program[s.pointer], s.program[s.pointer + 1]) {
        (s, Halt::Fault)
    } else if fuel == 0 {
        (s, Halt::StepLimit)
    } else {
        run(execute(s, s.program[s.pointer], s.program[s.pointer + 1]), (fuel - 1) as nat)
    }
}

impl Computer {
    /// The opcode and operand at the pointer, if both are there.
    pub fn get_next(&self) -> (r: Option<(i64, i64)>)
        ensures
            r is Some == has_next(self.state()),
            r matches Some(p) ==> p.0 == self.instructions@[self.pointer as int] && p.1
                == self.instructions@[self.pointer + 1],
    {
        if self.pointer < self.instructions.len() && self.pointer + 1 < self.instructions.len() {
            Some((self.instructions[self.pointer], self.instructions[self.pointer + 1]))
        } else {
            None
        }
    }

    /// Value of operand `v` read as a combo operand.
    pub fn get_combo(&self, v: i64) -> (r: i64)
        requires
            0 <= v <= 6,
        ensures
            r == combo(self.state(), v),
    {
        if v <= 3 {
            v
        } else if v == 4 {
            self.a
        } else if v == 5 {
            self.b
        } else {
            self.c
        }
    }

    /// Whether `instr` with operand `literal` can run now.
    pub fn can_run(&self, instr: i64, literal: i64) -> (r: bool)
        ensures
            r == can_run(self.state(), instr, literal),
    {
        if instr < 0 || instr > 7 {
            return false;
        }
        let uses_combo = instr == 0 || instr == 2 || instr == 5 || instr == 6 || instr == 7;
        if uses_combo && (literal < 0 || literal > 6) {
            return false;
        }
        if (instr == 0 || instr == 6 || instr == 7) && !(0 <= self.get_combo(literal)
            && self.get_combo(literal) < 64) {
            return false;
        }
        !(instr == 3 && self.a != 0 && (literal < 0 || literal as u64 > usize::MAX as u64))
    }

    /// Runs `instr` with operand `literal`.
    pub fn instruction(&mut self, instr: i64, literal: i64)
        requires
            can_run(old(self).state(), instr, literal),
            old(self).pointer + 2 <= usize::MAX,
        ensures
            final(self).state() == execute(old(self).state(), instr, literal),
    {
        let ghost s = self.state();
        if instr == 0 {
            let n = self.get_combo(literal);
            self.a = self.a >> (n as u32);
        } else if instr == 1 {
            self.b = self.b ^ literal;
        } else if instr == 2 {
            self.b = self.get_combo(literal) % 8;
        } else if instr == 3 {
            if self.a != 0 {
                self.pointer = literal as usize;
                assert(self.state() =~= execute(s, instr, literal));
                return;
            }
        } else if instr == 4 {
            self.b = self.b ^ self.c;
        } else if instr == 5 {
            let v = self.get_combo(literal) % 8;
            self.output.push(v);
        } else if instr == 6 {
            let n = self.get_combo(literal);
            self.b = self.a >> (n as u32);
        } else {
            let n = self.get_combo(literal);
            self.c = self.a >> (n as u32);
        }
        self.pointer = self.pointer + 2;
        assert(self.state() =~= execute(s, instr, literal));
    }
}

impl Computer {
    /// Runs instructions until the pointer leaves the program, an instruction has no
    /// meaning, or `max_steps` instructions have run; says which of the three happened.
    pub fn run_to_end(&mut self, max_steps: usize) -> (r: Halt)
        ensures
            (final(self).state(), r) == run(old(self).state(), max_steps as nat),
    {
        let mut fuel = max_steps;
        loop
            invariant
                run(self.state(), fuel as nat) == run(old(self).state(), max_steps as nat),
            decreases fuel,
        {
            match self.get_next() {
                None => {
                    return Halt::Finished;
                },
                Some((instr, literal)) => {
                    if !self.can_run(instr, literal) {
                        return Halt::Fault;
                    }
                    if fuel == 0 {
                        return Halt::StepLimit;
                    }
                    let length = self.instructions.len();
                    assert(self.pointer + 2 <= length);
                    self.instruction(instr, literal);
                    fuel = fuel - 1;
                },
            }
        }
    }
}

} // verus!
