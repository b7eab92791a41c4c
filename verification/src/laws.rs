//! The machine's general properties, stated over the small-step run
//! specification and proved once and for all: cell arithmetic is net count
//! modulo 256, pointer movement is net movement modulo the tape length, a
//! countdown loop's body runs exactly as many times as the starting cell
//! value, and a `LoopStart` with no `LoopEnd` after it fails.

use vstd::prelude::*;
use vstd::arithmetic::div_mod::{
    lemma_add_mod_noop_right, lemma_mod_add_multiples_vanish, lemma_mod_twice, lemma_small_mod,
};
use crate::exec::{
    RunSpec, VmState, find_match, run_spec, start_loop_spec, step_spec, Effect,
};
use crate::opcode::{Opcode, VmError};
use crate::tape::TAPE_LEN;

verus! {

/// Sum of the cell changes the opcodes from position `i` on ask for, when
/// every opcode is `IncrCell` (+1) or `DecrCell` (-1).
pub open spec fn cell_net(p: Seq<Opcode>, i: int) -> int
    decreases p.len() - i,
{
    if i < 0 || i >= p.len() {
        0
    } else {
        (if p[i] == Opcode::IncrCell {
            1int
        } else {
            -1int
        }) + cell_net(p, i + 1)
    }
}

/// Sum of the pointer moves the opcodes from position `i` on ask for, when
/// every opcode is `IncrPtr` (+1) or `DecrPtr` (-1).
pub open spec fn ptr_net(p: Seq<Opcode>, i: int) -> int
    decreases p.len() - i,
{
    if i < 0 || i >= p.len() {
        0
    } else {
        (if p[i] == Opcode::IncrPtr {
            1int
        } else {
            -1int
        }) + ptr_net(p, i + 1)
    }
}

proof fn lemma_cell_ops_from(
    m: VmState,
    p: Seq<Opcode>,
    ins: Seq<Seq<char>>,
    cursor: int,
    out: Seq<u8>,
    fuel: nat,
)
    requires
        m.wf(p.len() as int),
        forall|i: int|
            0 <= i < p.len() ==> (#[trigger] p[i]) == Opcode::IncrCell || p[i]
                == Opcode::DecrCell,
        fuel >= p.len() - m.ip,
    ensures
        run_spec(m, p, ins, cursor, out, fuel) == (RunSpec::Done {
            state: VmState {
                cells: m.cells.update(
                    m.ptr,
                    (((m.cell() as int) + cell_net(p, m.ip)) % 256) as u8,
                ),
                ip: p.len() as int,
                ..m
            },
            output: out,
        }),
    decreases p.len() - m.ip,
{
    let goal = VmState {
        cells: m.cells.update(m.ptr, (((m.cell() as int) + cell_net(p, m.ip)) % 256) as u8),
        ip: p.len() as int,
        ..m
    };
    if m.ip == p.len() {
        assert(cell_net(p, m.ip) == 0);
        lemma_small_mod(m.cell() as nat, 256);
        assert(goal.cells =~= m.cells);
        assert(goal =~= m);
    } else {
        let c = m.cell() as int;
        let rest = cell_net(p, m.ip + 1);
        if p[m.ip] == Opcode::IncrCell {
            let m2 = VmState {
                cells: m.cells.update(m.ptr, crate::tape::inc_byte(m.cell())),
                ip: m.ip + 1,
                ..m
            };
            assert(step_spec(m, p) == Ok::<(VmState, Effect), VmError>((m2, Effect::Quiet)));
            assert(run_spec(m, p, ins, cursor, out, fuel) == run_spec(
                m2,
                p,
                ins,
                cursor,
                out,
                (fuel - 1) as nat,
            ));
            lemma_cell_ops_from(m2, p, ins, cursor, out, (fuel - 1) as nat);
            assert(m2.cell() as int == (c + 1) % 256);
            lemma_add_mod_noop_right(rest, c + 1, 256);
            assert(((m2.cell() as int) + rest) % 256 == (c + cell_net(p, m.ip)) % 256);
            let goal2 = VmState {
                cells: m2.cells.update(
                    m2.ptr,
                    (((m2.cell() as int) + cell_net(p, m2.ip)) % 256) as u8,
                ),
                ip: p.len() as int,
                ..m2
            };
            assert(goal2.cells =~= goal.cells);
            assert(goal2 =~= goal);
        } else {
            let m2 = VmState {
                cells: m.cells.update(m.ptr, crate::tape::dec_byte(m.cell())),
                ip: m.ip + 1,
                ..m
            };
            assert(step_spec(m, p) == Ok::<(VmState, Effect), VmError>((m2, Effect::Quiet)));
            assert(run_spec(m, p, ins, cursor, out, fuel) == run_spec(
                m2,
                p,
                ins,
                cursor,
                out,
                (fuel - 1) as nat,
            ));
            lemma_cell_ops_from(m2, p, ins, cursor, out, (fuel - 1) as nat);
            assert(m2.cell() as int == (c + 255) % 256);
            lemma_add_mod_noop_right(rest, c + 255, 256);
            assert(((m2.cell() as int) + rest) % 256 == (c + 255 + rest) % 256);
            lemma_mod_add_multiples_vanish(c - 1 + rest, 256);
            assert((c + 255 + rest) % 256 == (c + cell_net(p, m.ip)) % 256);
            let goal2 = VmState {
                cells: m2.cells.update(
                    m2.ptr,
                    (((m2.cell() as int) + cell_net(p, m2.ip)) % 256) as u8,
                ),
                ip: p.len() as int,
                ..m2
            };
            assert(goal2.cells =~= goal.cells);
            assert(goal2 =~= goal);
        }
    }
}

/// Law: a program of only `IncrCell` and `DecrCell` opcodes always runs to
/// completion, and leaves the current cell holding its starting value plus
/// the net count of increments over decrements, modulo 256; no other cell,
/// nor the data pointer, moves.
pub proof fn lemma_cell_net_modulo(
    m: VmState,
    p: Seq<Opcode>,
    ins: Seq<Seq<char>>,
    cursor: int,
    out: Seq<u8>,
    fuel: nat,
)
    requires
        m.wf(p.len() as int),
        m.ip == 0,
        forall|i: int|
            0 <= i < p.len() ==> (#[trigger] p[i]) == Opcode::IncrCell || p[i]
                == Opcode::DecrCell,
        fuel >= p.len(),
    ensures
        run_spec(m, p, ins, cursor, out, fuel) == (RunSpec::Done {
            state: VmState {
                cells: m.cells.update(
                    m.ptr,
                    (((m.cell() as int) + cell_net(p, 0)) % 256) as u8,
                ),
                ip: p.len() as int,
                ..m
            },
            output: out,
        }),
{
    lemma_cell_ops_from(m, p, ins, cursor, out, fuel);
}

proof fn lemma_ptr_ops_from(
    m: VmState,
    p: Seq<Opcode>,
    ins: Seq<Seq<char>>,
    cursor: int,
    out: Seq<u8>,
    fuel: nat,
)
    requires
        m.wf(p.len() as int),
        forall|i: int|
            0 <= i < p.len() ==> (#[trigger] p[i]) == Opcode::IncrPtr || p[i] == Opcode::DecrPtr,
        fuel >= p.len() - m.ip,
    ensures
        run_spec(m, p, ins, cursor, out, fuel) == (RunSpec::Done {
            state: VmState {
                ptr: (m.ptr + ptr_net(p, m.ip)) % (TAPE_LEN as int),
                ip: p.len() as int,
                ..m
            },
            output: out,
        }),
    decreases p.len() - m.ip,
{
    let tl = TAPE_LEN as int;
    let goal = VmState { ptr: (m.ptr + ptr_net(p, m.ip)) % tl, ip: p.len() as int, ..m };
    if m.ip == p.len() {
        assert(ptr_net(p, m.ip) == 0);
        lemma_small_mod(m.ptr as nat, TAPE_LEN as nat);
        assert(goal =~= m);
    } else {
        let rest = ptr_net(p, m.ip + 1);
        if p[m.ip] == Opcode::IncrPtr {
            let m2 = VmState { ptr: (m.ptr + 1) % tl, ip: m.ip + 1, ..m };
            assert(step_spec(m, p) == Ok::<(VmState, Effect), VmError>((m2, Effect::Quiet)));
            assert(run_spec(m, p, ins, cursor, out, fuel) == run_spec(
                m2,
                p,
                ins,
                cursor,
                out,
                (fuel - 1) as nat,
            ));
            lemma_ptr_ops_from(m2, p, ins, cursor, out, (fuel - 1) as nat);
            lemma_add_mod_noop_right(rest, m.ptr + 1, tl);
            assert((m2.ptr + rest) % tl == (m.ptr + ptr_net(p, m.ip)) % tl);
            assert(VmState { ptr: (m2.ptr + ptr_net(p, m2.ip)) % tl, ip: p.len() as int, ..m2 }
                =~= goal);
        } else {
            let m2 = VmState { ptr: (m.ptr + tl - 1) % tl, ip: m.ip + 1, ..m };
            assert(step_spec(m, p) == Ok::<(VmState, Effect), VmError>((m2, Effect::Quiet)));
            assert(run_spec(m, p, ins, cursor, out, fuel) == run_spec(
                m2,
                p,
                ins,
                cursor,
                out,
                (fuel - 1) as nat,
            ));
            lemma_ptr_ops_from(m2, p, ins, cursor, out, (fuel - 1) as nat);
            lemma_add_mod_noop_right(rest, m.ptr + tl - 1, tl);
            assert((m2.ptr + rest) % tl == (m.ptr + tl - 1 + rest) % tl);
            lemma_mod_add_multiples_vanish(m.ptr - 1 + rest, tl);
            assert((m.ptr + tl - 1 + rest) % tl == (m.ptr + ptr_net(p, m.ip)) % tl);
            assert(VmState { ptr: (m2.ptr + ptr_net(p, m2.ip)) % tl, ip: p.len() as int, ..m2 }
                =~= goal);
        }
    }
}

/// Law: a program of only `IncrPtr` and `DecrPtr` opcodes always runs to
/// completion, and the data pointer, starting from 0, ends at
/// `((0 + n) mod 30000 + 30000) mod 30000` where `n` is the net count of
/// right moves over left moves; the cells do not change.
pub proof fn lemma_ptr_net_modulo(
    m: VmState,
    p: Seq<Opcode>,
    ins: Seq<Seq<char>>,
    cursor: int,
    out: Seq<u8>,
    fuel: nat,
)
    requires
        m.wf(p.len() as int),
        m.ip == 0,
        m.ptr == 0,
        forall|i: int|
            0 <= i < p.len() ==> (#[trigger] p[i]) == Opcode::IncrPtr || p[i] == Opcode::DecrPtr,
        fuel >= p.len(),
    ensures
        run_spec(m, p, ins, cursor, out, fuel) == (RunSpec::Done {
            state: VmState {
                ptr: (((0 + ptr_net(p, 0)) % (TAPE_LEN as int) + (TAPE_LEN as int)) % (
                TAPE_LEN as int)),
                ip: p.len() as int,
                ..m
            },
            output: out,
        }),
{
    let tl = TAPE_LEN as int;
    lemma_ptr_ops_from(m, p, ins, cursor, out, fuel);
    let n = ptr_net(p, 0);
    lemma_mod_add_multiples_vanish(n % tl, tl);
    lemma_mod_twice(n, tl);
    assert(((0 + n) % tl + tl) % tl == (m.ptr + n) % tl);
    assert(VmState { ptr: ((0 + n) % tl + tl) % tl, ip: p.len() as int, ..m } =~= VmState {
        ptr: (m.ptr + n) % tl,
        ip: p.len() as int,
        ..m
    });
}

/// The three-opcode program whose loop body only decrements the current cell.
pub open spec fn countdown_program() -> Seq<Opcode> {
    seq![Opcode::LoopStart, Opcode::DecrCell, Opcode::LoopEnd]
}

proof fn lemma_countdown_iter(
    m: VmState,
    ins: Seq<Seq<char>>,
    cursor: int,
    out: Seq<u8>,
    fuel: nat,
)
    requires
        m.wf(3),
        m.ip == 1,
        m.stack.len() >= 1,
        m.stack.last() == 0,
        1 <= m.cell(),
    ensures
        fuel >= 2 * (m.cell() as int) ==> run_spec(m, countdown_program(), ins, cursor, out, fuel)
            == (RunSpec::Done {
            state: VmState { cells: m.cells.update(m.ptr, 0), ip: 3, stack: m.stack.drop_last(), ..m },
            output: out,
        }),
        fuel < 2 * (m.cell() as int) ==> run_spec(m, countdown_program(), ins, cursor, out, fuel)
            is OutOfSteps,
    decreases m.cell(),
{
    let p = countdown_program();
    let c = m.cell();
    assert(p.len() == 3 && p[1] == Opcode::DecrCell && p[2] == Opcode::LoopEnd);
    if fuel == 0 {
    } else {
        assert((c as int + 255) % 256 == c - 1) by {
            lemma_mod_add_multiples_vanish(c as int - 1, 256);
            lemma_small_mod((c - 1) as nat, 256);
        }
        let m2 = VmState { cells: m.cells.update(m.ptr, (c - 1) as u8), ip: 2, ..m };
        assert(crate::tape::dec_byte(c) == (c - 1) as u8);
        assert(step_spec(m, p) == Ok::<(VmState, Effect), VmError>((m2, Effect::Quiet)));
        assert(run_spec(m, p, ins, cursor, out, fuel) == run_spec(
            m2,
            p,
            ins,
            cursor,
            out,
            (fuel - 1) as nat,
        ));
        if fuel == 1 {
            assert(run_spec(m2, p, ins, cursor, out, 0) is OutOfSteps);
        } else {
            assert(m2.cell() == c - 1);
            if c == 1 {
                let m3 = VmState { ip: 3, stack: m2.stack.drop_last(), ..m2 };
                assert(step_spec(m2, p) == Ok::<(VmState, Effect), VmError>((m3, Effect::Quiet)));
                assert(run_spec(m2, p, ins, cursor, out, (fuel - 1) as nat) == run_spec(
                    m3,
                    p,
                    ins,
                    cursor,
                    out,
                    (fuel - 2) as nat,
                ));
                assert(run_spec(m3, p, ins, cursor, out, (fuel - 2) as nat) == (RunSpec::Done {
                    state: m3,
                    output: out,
                }));
                assert(m3 =~= VmState {
                    cells: m.cells.update(m.ptr, 0),
                    ip: 3,
                    stack: m.stack.drop_last(),
                    ..m
                });
            } else {
                let m3 = VmState { ip: 1, ..m2 };
                assert(step_spec(m2, p) == Ok::<(VmState, Effect), VmError>((m3, Effect::Quiet)));
                assert(run_spec(m2, p, ins, cursor, out, (fuel - 1) as nat) == run_spec(
                    m3,
                    p,
                    ins,
                    cursor,
                    out,
                    (fuel - 2) as nat,
                ));
                assert(m3.cell() == c - 1);
                lemma_countdown_iter(m3, ins, cursor, out, (fuel - 2) as nat);
                if fuel >= 2 * (c as int) {
                    assert(VmState {
                        cells: m3.cells.update(m3.ptr, 0),
                        ip: 3,
                        stack: m3.stack.drop_last(),
                        ..m3
                    } =~= VmState {
                        cells: m.cells.update(m.ptr, 0),
                        ip: 3,
                        stack: m.stack.drop_last(),
                        ..m
                    });
                }
            }
        }
    }
}

/// Law: a loop whose body only decrements the current cell runs its body
/// exactly as many times as the cell's starting value `v`: the run
/// completes (with the cell zeroed and the loop left) in exactly `1 + 2 v`
/// steps — any smaller budget runs out — and `v = 0` skips the body
/// entirely by the forward scan.
pub proof fn lemma_countdown_loop(
    m: VmState,
    ins: Seq<Seq<char>>,
    cursor: int,
    out: Seq<u8>,
    fuel: nat,
)
    requires
        m.wf(3),
        m.ip == 0,
        m.stack == Seq::<int>::empty(),
    ensures
        fuel >= 1 + 2 * (m.cell() as int) ==> run_spec(
            m,
            countdown_program(),
            ins,
            cursor,
            out,
            fuel,
        ) == (RunSpec::Done {
            state: VmState { cells: m.cells.update(m.ptr, 0), ip: 3, ..m },
            output: out,
        }),
        fuel < 1 + 2 * (m.cell() as int) ==> run_spec(m, countdown_program(), ins, cursor, out, fuel)
            is OutOfSteps,
{
    let p = countdown_program();
    let c = m.cell();
    assert(p.len() == 3 && p[0] == Opcode::LoopStart && p[1] == Opcode::DecrCell && p[2]
        == Opcode::LoopEnd);
    if fuel == 0 {
    } else {
        if c == 0 {
            assert(find_match(p, 2, 1) == Some(2int));
            assert(find_match(p, 1, 1) == Some(2int));
            assert(start_loop_spec(m, p) == Ok::<VmState, VmError>(VmState { ip: 2, ..m }));
            let m2 = VmState { ip: 3, ..m };
            assert(step_spec(m, p) == Ok::<(VmState, Effect), VmError>((m2, Effect::Quiet)));
            assert(run_spec(m, p, ins, cursor, out, fuel) == run_spec(
                m2,
                p,
                ins,
                cursor,
                out,
                (fuel - 1) as nat,
            ));
            assert(run_spec(m2, p, ins, cursor, out, (fuel - 1) as nat) == (RunSpec::Done {
                state: m2,
                output: out,
            }));
            assert(m.cells.update(m.ptr, 0) =~= m.cells);
            assert(m2 =~= VmState { cells: m.cells.update(m.ptr, 0), ip: 3, ..m });
        } else {
            let m2 = VmState { ip: 1, stack: m.stack.push(0), ..m };
            assert(start_loop_spec(m, p) == Ok::<VmState, VmError>(
                VmState { stack: m.stack.push(0), ..m },
            ));
            assert(step_spec(m, p) == Ok::<(VmState, Effect), VmError>((m2, Effect::Quiet)));
            assert(run_spec(m, p, ins, cursor, out, fuel) == run_spec(
                m2,
                p,
                ins,
                cursor,
                out,
                (fuel - 1) as nat,
            ));
            assert(m2.wf(3)) by {
                assert(forall|i: int|
                    0 <= i < m2.stack.len() ==> 0 <= #[trigger] m2.stack[i] < 3);
            }
            assert(m2.stack.last() == 0);
            lemma_countdown_iter(m2, ins, cursor, out, (fuel - 1) as nat);
            if fuel >= 1 + 2 * (c as int) {
                assert(m2.stack.drop_last() =~= m.stack);
                assert(VmState {
                    cells: m2.cells.update(m2.ptr, 0),
                    ip: 3,
                    stack: m2.stack.drop_last(),
                    ..m2
                } =~= VmState { cells: m.cells.update(m.ptr, 0), ip: 3, ..m });
            }
        }
    }
}

proof fn lemma_find_match_none_without_loop_end(p: Seq<Opcode>, i: int, d: int)
    requires
        0 <= i,
        d >= 1,
        forall|j: int| i <= j < p.len() ==> (#[trigger] p[j]) != Opcode::LoopEnd,
    ensures
        find_match(p, i, d) is None,
    decreases p.len() - i,
{
    if i >= p.len() {
    } else {
        let d2 = if p[i] == Opcode::LoopStart {
            d + 1
        } else {
            d
        };
        lemma_find_match_none_without_loop_end(p, i + 1, d2);
    }
}

/// Law: a `LoopStart` executed over a zero cell, with no `LoopEnd`
/// anywhere later in the program, stops the run with `UnterminatedLoop`.
pub proof fn lemma_unterminated_loop(
    m: VmState,
    p: Seq<Opcode>,
    ins: Seq<Seq<char>>,
    cursor: int,
    out: Seq<u8>,
    fuel: nat,
)
    requires
        0 <= m.ip < p.len(),
        p[m.ip] == Opcode::LoopStart,
        m.cell() == 0,
        forall|j: int| m.ip < j < p.len() ==> (#[trigger] p[j]) != Opcode::LoopEnd,
        fuel >= 1,
    ensures
        run_spec(m, p, ins, cursor, out, fuel) == (RunSpec::Fail {
            error: VmError::UnterminatedLoop,
        }),
{
    lemma_find_match_none_without_loop_end(p, m.ip + 1, 1);
    assert(start_loop_spec(m, p) == Err::<VmState, VmError>(VmError::UnterminatedLoop));
    assert(step_spec(m, p) == Err::<(VmState, Effect), VmError>(VmError::UnterminatedLoop));
}

} // verus!
