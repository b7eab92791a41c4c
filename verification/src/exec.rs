//! The executor: an instruction pointer driven over the decoded program,
//! with the tape and a loop-entry stack. A loop's entry test (skip the
//! whole loop on a zero cell, by a forward scan to the matching `LoopEnd`)
//! runs only when the `LoopStart` itself is executed; every later
//! iteration is governed solely by the `LoopEnd` test, which jumps back to
//! the recorded entry point without popping it.
//!
//! The behaviour is fixed by a small-step specification: [`step_spec`]
//! gives one step, [`run_spec`] a whole run under a step budget, and every
//! executable function is proved against them.

use vstd::prelude::*;
use crate::decode::{is_space, is_space_char};
use crate::opcode::{Opcode, VmError};
use crate::tape::{Tape, TAPE_LEN, dec_byte, inc_byte};

verus! {

/// Mathematical image of the executor's state.
#[verifier::ext_equal]
pub ghost struct VmState {
    /// The tape's cells, always `TAPE_LEN` of them.
    pub cells: Seq<u8>,
    /// The data pointer, an index into `cells`.
    pub ptr: int,
    /// The instruction pointer, an index into the program.
    pub ip: int,
    /// Indices of the `LoopStart` opcodes whose loops are active, innermost last.
    pub stack: Seq<int>,
}

impl VmState {
    /// Well-formed with respect to a program of length `plen`.
    pub open spec fn wf(self, plen: int) -> bool {
        &&& self.cells.len() == TAPE_LEN
        &&& 0 <= self.ptr < TAPE_LEN
        &&& 0 <= self.ip <= plen
        &&& forall|i: int| 0 <= i < self.stack.len() ==> 0 <= #[trigger] self.stack[i] < plen
    }

    /// The cell the data pointer selects.
    pub open spec fn cell(self) -> u8 {
        self.cells[self.ptr]
    }

    /// The machine's starting state: all cells 0, both pointers 0, no active loop.
    pub open spec fn init() -> VmState {
        VmState {
            cells: Seq::new(TAPE_LEN as nat, |i: int| 0u8),
            ptr: 0,
            ip: 0,
            stack: Seq::empty(),
        }
    }
}

/// Index of the `LoopEnd` that closes the loop still `depth` levels open
/// at position `i`, scanning forward: a `LoopStart` deepens the nesting, a
/// `LoopEnd` closes one level, and reaching depth 0 is the match. `None`
/// when the program ends first.
pub open spec fn find_match(p: Seq<Opcode>, i: int, depth: int) -> Option<int>
    decreases p.len() - i,
{
    if i < 0 || i >= p.len() {
        None
    } else {
        let d = if p[i] == Opcode::LoopStart {
            depth + 1
        } else if p[i] == Opcode::LoopEnd {
            depth - 1
        } else {
            depth
        };
        if d == 0 {
            Some(i)
        } else {
            find_match(p, i + 1, d)
        }
    }
}

/// Effect of a `LoopStart` at `m.ip`: on a nonzero cell, record the entry
/// point; on a zero cell, land on the matching `LoopEnd`, or fail when
/// there is none.
pub open spec fn start_loop_spec(m: VmState, p: Seq<Opcode>) -> Result<VmState, VmError> {
    if m.cell() != 0 {
        Ok(VmState { stack: m.stack.push(m.ip), ..m })
    } else {
        match find_match(p, m.ip + 1, 1) {
            Some(j) => Ok(VmState { ip: j, ..m }),
            None => Err(VmError::UnterminatedLoop),
        }
    }
}

/// Effect of a `LoopEnd`: on a nonzero cell, jump back to the recorded
/// entry point without popping it; on a zero cell, pop the exited loop.
/// With no loop active, fail either way.
pub open spec fn end_loop_spec(m: VmState) -> Result<VmState, VmError> {
    if m.stack.len() == 0 {
        Err(VmError::LoopStackEmpty)
    } else if m.cell() != 0 {
        Ok(VmState { ip: m.stack.last(), ..m })
    } else {
        Ok(VmState { stack: m.stack.drop_last(), ..m })
    }
}

/// What one executed opcode asks of the world outside the machine.
#[derive(Clone, Copy, PartialEq, Eq, Structural, Debug)]
pub enum Effect {
    /// Nothing: the step was internal.
    Quiet,
    /// An `Output` opcode: this byte is to be written out.
    Wrote(u8),
    /// An `Input` opcode: one input line is needed before the machine can move on.
    Read,
}

/// One step of the machine at `m.ip`. Every opcode but `Input` moves the
/// machine; an `Input` leaves it in place, waiting for a line.
pub open spec fn step_spec(m: VmState, p: Seq<Opcode>) -> Result<(VmState, Effect), VmError>
    recommends
        0 <= m.ip < p.len(),
{
    match p[m.ip] {
        Opcode::IncrCell => Ok(
            (
                VmState {
                    cells: m.cells.update(m.ptr, inc_byte(m.cell())),
                    ip: m.ip + 1,
                    ..m
                },
                Effect::Quiet,
            ),
        ),
        Opcode::DecrCell => Ok(
            (
                VmState {
                    cells: m.cells.update(m.ptr, dec_byte(m.cell())),
                    ip: m.ip + 1,
                    ..m
                },
                Effect::Quiet,
            ),
        ),
        Opcode::IncrPtr => Ok(
            (VmState { ptr: (m.ptr + 1) % (TAPE_LEN as int), ip: m.ip + 1, ..m }, Effect::Quiet),
        ),
        Opcode::DecrPtr => Ok(
            (
                VmState { ptr: (m.ptr + (TAPE_LEN as int) - 1) % (TAPE_LEN as int), ip: m.ip + 1, ..m },
                Effect::Quiet,
            ),
        ),
        Opcode::LoopStart => match start_loop_spec(m, p) {
            Ok(m2) => Ok((VmState { ip: m2.ip + 1, ..m2 }, Effect::Quiet)),
            Err(e) => Err(e),
        },
        Opcode::LoopEnd => match end_loop_spec(m) {
            Ok(m2) => Ok((VmState { ip: m2.ip + 1, ..m2 }, Effect::Quiet)),
            Err(e) => Err(e),
        },
        Opcode::Output => Ok((VmState { ip: m.ip + 1, ..m }, Effect::Wrote(m.cell()))),
        Opcode::Input => Ok((m, Effect::Read)),
    }
}

/// The first character of a line after trimming surrounding whitespace,
/// when the trimmed line is not empty: that is, the line's first
/// non-whitespace character.
pub open spec fn first_non_space(line: Seq<char>) -> Option<char>
    decreases line.len(),
{
    if line.len() == 0 {
        None
    } else if !is_space_char(line[0]) {
        Some(line[0])
    } else {
        first_non_space(line.drop_first())
    }
}

/// The low byte of a character's code, as an `Input` opcode stores it.
pub open spec fn char_byte(c: char) -> u8 {
    ((c as u32) % 256) as u8
}

/// Effect of handing `line` to a waiting `Input` opcode: store the first
/// character of the trimmed line and move on, or fail when the trimmed
/// line is empty.
pub open spec fn input_spec(m: VmState, line: Seq<char>) -> Result<VmState, VmError> {
    match first_non_space(line) {
        None => Err(VmError::EmptyInput),
        Some(c) => Ok(
            VmState { cells: m.cells.update(m.ptr, char_byte(c)), ip: m.ip + 1, ..m },
        ),
    }
}

/// How a whole run under a step budget can end.
pub ghost enum RunSpec {
    /// The instruction pointer reached the program's end.
    Done { state: VmState, output: Seq<u8> },
    /// The budget ran out with the machine still going.
    OutOfSteps { state: VmState, output: Seq<u8> },
    /// A fatal error stopped the machine.
    Fail { error: VmError },
}

/// Run the machine from `m` for at most `fuel` steps, reading `Input`
/// lines from `inputs` at `cursor` (an exhausted input reads as an empty
/// line) and collecting `Output` bytes after `out`.
pub open spec fn run_spec(
    m: VmState,
    p: Seq<Opcode>,
    inputs: Seq<Seq<char>>,
    cursor: int,
    out: Seq<u8>,
    fuel: nat,
) -> RunSpec
    decreases fuel,
{
    if m.ip >= p.len() {
        RunSpec::Done { state: m, output: out }
    } else if fuel == 0 {
        RunSpec::OutOfSteps { state: m, output: out }
    } else {
        match step_spec(m, p) {
            Err(e) => RunSpec::Fail { error: e },
            Ok((m2, eff)) => match eff {
                Effect::Quiet => run_spec(m2, p, inputs, cursor, out, (fuel - 1) as nat),
                Effect::Wrote(b) => run_spec(m2, p, inputs, cursor, out.push(b), (fuel - 1) as nat),
                Effect::Read => {
                    let line = if 0 <= cursor < inputs.len() {
                        inputs[cursor]
                    } else {
                        Seq::empty()
                    };
                    match input_spec(m2, line) {
                        Err(e) => RunSpec::Fail { error: e },
                        Ok(m3) => run_spec(m3, p, inputs, cursor + 1, out, (fuel - 1) as nat),
                    }
                },
            },
        }
    }
}

/// The executor's state: the tape, the instruction pointer, and the stack
/// of active loop entry points.
pub struct ExecState {
    pub tape: Tape,
    pub instruction_pointer: usize,
    pub loop_stack: Vec<usize>,
}

impl View for ExecState {
    type V = VmState;

    open spec fn view(&self) -> VmState {
        VmState {
            cells: self.tape.cells@,
            ptr: self.tape.pointer as int,
            ip: self.instruction_pointer as int,
            stack: Seq::new(self.loop_stack@.len(), |i: int| self.loop_stack@[i] as int),
        }
    }
}

impl ExecState {
    /// Well-formed with respect to a program of length `plen`.
    pub open spec fn wf(self, plen: int) -> bool {
        self@.wf(plen)
    }

    /// The machine's starting state.
    pub fn new() -> (s: ExecState)
        ensures
            s@ == VmState::init(),
    {
        let s = ExecState { tape: Tape::new(), instruction_pointer: 0, loop_stack: Vec::new() };
        proof {
            assert(s@.cells =~= VmState::init().cells);
            assert(s@.stack =~= VmState::init().stack);
            assert(s@ =~= VmState::init());
        }
        s
    }

    /// Handle a `LoopStart` at the instruction pointer: record the entry
    /// point on a nonzero cell, else scan forward for the matching
    /// `LoopEnd` and land on it. The per-step advance past it is the
    /// caller's, as for every opcode.
    #[verifier::loop_isolation(false)]
    pub fn start_loop(&mut self, program: &Vec<Opcode>) -> (r: Result<(), VmError>)
        requires
            old(self).wf(program@.len() as int),
            old(self)@.ip < program@.len(),
        ensures
            match r {
                Ok(()) => {
                    &&& start_loop_spec(old(self)@, program@) == Ok::<VmState, VmError>(
                        final(self)@,
                    )
                    &&& final(self).wf(program@.len() as int)
                    &&& final(self)@.ip < program@.len()
                },
                Err(e) => {
                    &&& start_loop_spec(old(self)@, program@) == Err::<VmState, VmError>(e)
                    &&& *final(self) == *old(self)
                },
            },
    {
        let cell = self.tape.current();
        if cell != 0 {
            let ip = self.instruction_pointer;
            self.loop_stack.push(ip);
            proof {
                assert(self@.stack =~= old(self)@.stack.push(ip as int));
                assert(self@ =~= VmState { stack: old(self)@.stack.push(old(self)@.ip), ..old(self)@ });
            }
            Ok(())
        } else {
            let n = program.len();
            let start = self.instruction_pointer;
            let mut j: usize = start;
            let mut count: usize = 1;
            while count > 0
                invariant
                    start <= j < n,
                    count as int <= j - start + 1,
                    count > 0 ==> find_match(program@, start + 1, 1) == find_match(
                        program@,
                        j + 1,
                        count as int,
                    ),
                    count == 0 ==> find_match(program@, start + 1, 1) == Some(j as int),
                decreases n - j,
            {
                let j2 = j + 1;
                if j2 >= n {
                    return Err(VmError::UnterminatedLoop);
                }
                let op = program[j2];
                let d: usize = if op == Opcode::LoopStart {
                    count + 1
                } else if op == Opcode::LoopEnd {
                    count - 1
                } else {
                    count
                };
                proof {
                    if d == 0 {
                        assert(find_match(program@, j2 as int, count as int) == Some(j2 as int));
                    } else {
                        assert(find_match(program@, j2 as int, count as int) == find_match(
                            program@,
                            j2 + 1 as int,
                            d as int,
                        ));
                    }
                }
                count = d;
                j = j2;
            }
            self.instruction_pointer = j;
            proof {
                assert(self@ =~= VmState { ip: j as int, ..old(self)@ });
            }
            Ok(())
        }
    }

    /// Handle a `LoopEnd` at the instruction pointer: jump back to the
    /// innermost entry point on a nonzero cell, pop it on a zero cell,
    /// and fail when no loop is active.
    pub fn end_loop(&mut self) -> (r: Result<(), VmError>)
        requires
            old(self).tape.wf(),
        ensures
            match r {
                Ok(()) => {
                    &&& end_loop_spec(old(self)@) == Ok::<VmState, VmError>(final(self)@)
                    &&& final(self).tape == old(self).tape
                },
                Err(e) => {
                    &&& end_loop_spec(old(self)@) == Err::<VmState, VmError>(e)
                    &&& *final(self) == *old(self)
                },
            },
    {
        let cell = self.tape.current();
        let depth = self.loop_stack.len();
        if depth == 0 {
            proof {
                assert(old(self)@.stack.len() == 0);
            }
            return Err(VmError::LoopStackEmpty);
        }
        if cell != 0 {
            let entry = self.loop_stack[depth - 1];
            self.instruction_pointer = entry;
            proof {
                assert(old(self)@.stack.last() == entry as int);
                assert(self@ =~= VmState { ip: old(self)@.stack.last(), ..old(self)@ });
            }
            Ok(())
        } else {
            self.loop_stack.pop();
            proof {
                assert(self@.stack =~= old(self)@.stack.drop_last());
                assert(self@ =~= VmState { stack: old(self)@.stack.drop_last(), ..old(self)@ });
            }
            Ok(())
        }
    }

    /// Execute the opcode at the instruction pointer. `Ok` carries what
    /// the step asks of the outside world; after `Effect::Read` the
    /// machine has not moved and waits for [`ExecState::supply_input`].
    pub fn step(&mut self, program: &Vec<Opcode>) -> (r: Result<Effect, VmError>)
        requires
            old(self).wf(program@.len() as int),
            old(self)@.ip < program@.len(),
        ensures
            match r {
                Ok(eff) => {
                    &&& step_spec(old(self)@, program@) == Ok::<(VmState, Effect), VmError>(
                        (final(self)@, eff),
                    )
                    &&& final(self).wf(program@.len() as int)
                },
                Err(e) => step_spec(old(self)@, program@) == Err::<(VmState, Effect), VmError>(e),
            },
    {
        let n = program.len();
        let ip = self.instruction_pointer;
        let op = program[ip];
        match op {
            Opcode::IncrCell => {
                self.tape.increment_at_pointer();
                self.instruction_pointer = ip + 1;
                proof {
                    assert(self@ =~= VmState {
                        cells: old(self)@.cells.update(old(self)@.ptr, inc_byte(old(self)@.cell())),
                        ip: old(self)@.ip + 1,
                        ..old(self)@
                    });
                }
                Ok(Effect::Quiet)
            },
            Opcode::DecrCell => {
                self.tape.decrement_at_pointer();
                self.instruction_pointer = ip + 1;
                proof {
                    assert(self@ =~= VmState {
                        cells: old(self)@.cells.update(old(self)@.ptr, dec_byte(old(self)@.cell())),
                        ip: old(self)@.ip + 1,
                        ..old(self)@
                    });
                }
                Ok(Effect::Quiet)
            },
            Opcode::IncrPtr => {
                self.tape.increment_pointer();
                self.instruction_pointer = ip + 1;
                proof {
                    assert(self@ =~= VmState {
                        ptr: (old(self)@.ptr + 1) % (TAPE_LEN as int),
                        ip: old(self)@.ip + 1,
                        ..old(self)@
                    });
                }
                Ok(Effect::Quiet)
            },
            Opcode::DecrPtr => {
                self.tape.decrement_pointer();
                self.instruction_pointer = ip + 1;
                proof {
                    assert(self@ =~= VmState {
                        ptr: (old(self)@.ptr + (TAPE_LEN as int) - 1) % (TAPE_LEN as int),
                        ip: old(self)@.ip + 1,
                        ..old(self)@
                    });
                }
                Ok(Effect::Quiet)
            },
            Opcode::LoopStart => {
                match self.start_loop(program) {
                    Ok(()) => {
                        let ip2 = self.instruction_pointer;
                        self.instruction_pointer = ip2 + 1;
                        proof {
                            let m2 = start_loop_spec(old(self)@, program@)->Ok_0;
                            assert(self@ =~= VmState { ip: m2.ip + 1, ..m2 });
                        }
                        Ok(Effect::Quiet)
                    },
                    Err(e) => Err(e),
                }
            },
            Opcode::LoopEnd => {
                match self.end_loop() {
                    Ok(()) => {
                        let ip2 = self.instruction_pointer;
                        self.instruction_pointer = ip2 + 1;
                        proof {
                            let m2 = end_loop_spec(old(self)@)->Ok_0;
                            assert(self@ =~= VmState { ip: m2.ip + 1, ..m2 });
                        }
                        Ok(Effect::Quiet)
                    },
                    Err(e) => Err(e),
                }
            },
            Opcode::Output => {
                let b = self.tape.current();
                self.instruction_pointer = ip + 1;
                proof {
                    assert(self@ =~= VmState { ip: old(self)@.ip + 1, ..old(self)@ });
                }
                Ok(Effect::Wrote(b))
            },
            Opcode::Input => {
                proof {
                    assert(self@ =~= old(self)@);
                }
                Ok(Effect::Read)
            },
        }
    }

    /// Hand one input line to the waiting `Input` opcode: store the first
    /// character of the trimmed line in the current cell and move on, or
    /// fail with `EmptyInput` when the trimmed line is empty.
    pub fn supply_input(&mut self, line: &Vec<char>) -> (r: Result<(), VmError>)
        requires
            old(self).tape.wf(),
            old(self).instruction_pointer < usize::MAX,
        ensures
            match r {
                Ok(()) => {
                    &&& input_spec(old(self)@, line@) == Ok::<VmState, VmError>(final(self)@)
                    &&& final(self).tape.wf()
                },
                Err(e) => {
                    &&& input_spec(old(self)@, line@) == Err::<VmState, VmError>(e)
                    &&& *final(self) == *old(self)
                },
            },
    {
        match scan_first_non_space(line) {
            None => Err(VmError::EmptyInput),
            Some(c) => {
                let u = c as u32;
                let b = (u % 256) as u8;
                self.tape.set_current(b);
                let ip = self.instruction_pointer;
                self.instruction_pointer = ip + 1;
                proof {
                    assert(self@ =~= VmState {
                        cells: old(self)@.cells.update(old(self)@.ptr, char_byte(c)),
                        ip: old(self)@.ip + 1,
                        ..old(self)@
                    });
                }
                Ok(())
            },
        }
    }
}

/// Find a line's first non-whitespace character, if it has one.
#[verifier::loop_isolation(false)]
fn scan_first_non_space(line: &Vec<char>) -> (r: Option<char>)
    ensures
        r == first_non_space(line@),
{
    let n = line.len();
    let mut i: usize = 0;
    proof {
        assert(line@.skip(0) =~= line@);
    }
    while i < n
        invariant
            i <= n,
            first_non_space(line@) == first_non_space(line@.skip(i as int)),
        decreases n - i,
    {
        let c = line[i];
        if !is_space(c) {
            proof {
                assert(line@.skip(i as int)[0] == line@[i as int]);
                assert(first_non_space(line@.skip(i as int)) == Some(c));
            }
            return Some(c);
        }
        proof {
            assert(line@.skip(i as int).drop_first() =~= line@.skip(i as int + 1));
        }
        i = i + 1;
    }
    proof {
        assert(line@.skip(n as int) =~= Seq::<char>::empty());
    }
    None
}

/// How [`interpret`] reports a finished run.
#[derive(PartialEq, Eq, Debug)]
pub enum RunOutcome {
    /// The program ran to its end; these are the bytes it output, in order.
    Completed(Vec<u8>),
    /// The step budget ran out first; these are the bytes output so far.
    OutOfSteps(Vec<u8>),
    /// A fatal error stopped the machine.
    Failed(VmError),
}

/// Whether an outcome reports exactly what the specification's run ends in.
pub open spec fn outcome_matches(r: RunOutcome, s: RunSpec) -> bool {
    match s {
        RunSpec::Done { state, output } => r matches RunOutcome::Completed(v) && v@ == output,
        RunSpec::OutOfSteps { state, output } => r matches RunOutcome::OutOfSteps(v) && v@
            == output,
        RunSpec::Fail { error } => r matches RunOutcome::Failed(e) && e == error,
    }
}

/// Run a decoded program from the starting state for at most `max_steps`
/// steps. `Input` opcodes consume `inputs` line by line, and read an empty
/// line once `inputs` is exhausted; `Output` bytes are collected in order.
#[verifier::loop_isolation(false)]
pub fn interpret(program: &Vec<Opcode>, inputs: &Vec<Vec<char>>, max_steps: u64) -> (r: RunOutcome)
    ensures
        outcome_matches(
            r,
            run_spec(
                VmState::init(),
                program@,
                inputs.deep_view(),
                0,
                Seq::empty(),
                max_steps as nat,
            ),
        ),
{
    let ghost ins = inputs.deep_view();
    let mut state = ExecState::new();
    let mut out: Vec<u8> = Vec::new();
    let mut cursor: usize = 0;
    let ghost mut gcur: int = 0;
    let mut fuel: u64 = max_steps;
    proof {
        assert(out@ =~= Seq::<u8>::empty());
        assert(VmState::init().wf(program@.len() as int));
    }
    while state.instruction_pointer < program.len()
        invariant
            state.wf(program@.len() as int),
            cursor <= inputs@.len(),
            cursor as int == if gcur <= inputs@.len() { gcur } else { inputs@.len() as int },
            ins == inputs.deep_view(),
            run_spec(VmState::init(), program@, ins, 0, Seq::empty(), max_steps as nat)
                == run_spec(state@, program@, ins, gcur, out@, fuel as nat),
        decreases fuel,
    {
        if fuel == 0 {
            return RunOutcome::OutOfSteps(out);
        }
        let ghost prev_m = state@;
        let ghost prev_out = out@;
        let ghost prev_cursor = gcur;
        let ghost prev_fuel = fuel as nat;
        match state.step(program) {
            Err(e) => {
                return RunOutcome::Failed(e);
            },
            Ok(eff) => {
                match eff {
                    Effect::Quiet => {},
                    Effect::Wrote(b) => {
                        out.push(b);
                    },
                    Effect::Read => {
                        let ghost line_spec = if 0 <= prev_cursor < ins.len() {
                            ins[prev_cursor]
                        } else {
                            Seq::<char>::empty()
                        };
                        let line_res: Result<(), VmError>;
                        if cursor < inputs.len() {
                            proof {
                                assert(inputs@[cursor as int].deep_view() =~= inputs@[cursor as int]@);
                                assert(line_spec == inputs@[cursor as int]@);
                            }
                            line_res = state.supply_input(&inputs[cursor]);
                        } else {
                            let empty_line: Vec<char> = Vec::new();
                            proof {
                                assert(empty_line@ =~= line_spec);
                            }
                            line_res = state.supply_input(&empty_line);
                        }
                        if cursor < inputs.len() {
                            cursor = cursor + 1;
                        }
                        proof {
                            gcur = gcur + 1;
                        }
                        match line_res {
                            Err(e) => {
                                return RunOutcome::Failed(e);
                            },
                            Ok(()) => {},
                        }
                    },
                }
            },
        }
        fuel = fuel - 1;
        proof {
            assert(run_spec(prev_m, program@, ins, prev_cursor, prev_out, prev_fuel) == run_spec(
                state@,
                program@,
                ins,
                gcur,
                out@,
                fuel as nat,
            ));
        }
    }
    RunOutcome::Completed(out)
}

} // verus!
