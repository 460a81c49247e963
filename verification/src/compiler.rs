//! The lowering driver: replays the recorded trace against the compile-time
//! stack model and emits the target byte sequence, with output drainage and
//! stack cleanup.
//!
//! The whole compilation is pinned by the specification function
//! [`compile_spec`]: the executable driver returns exactly its outcome, so
//! a compilation is a function of the DSL value alone.

use vstd::prelude::*;
use crate::dsl::{DslV, TraceEntry, TraceEntryV, DSL, no_options};
use crate::encode::{
    element_push_bytes_of, element_push_script, element_pushable, opcode_byte_1sub,
    opcode_byte_2drop, opcode_byte_depth, opcode_byte_drop, opcode_byte_fromaltstack,
    opcode_byte_pick, opcode_byte_roll, opcode_byte_toaltstack, push_int_script,
    script_buf_bytes, script_buf_from_bytes, int_push_bytes_of, OP_1SUB, OP_2DROP, OP_DEPTH,
    OP_DROP, OP_FROMALTSTACK, OP_PICK, OP_ROLL, OP_TOALTSTACK,
};
use crate::errors::{CompileErrV, CompileError, StackError};
use crate::functions::{
    AcceptableFunctionMetadata, FormalParam, FormalParamV, FunctionGenerator,
};
use crate::memory::{MemoryEntry, MemoryEntryV};
use crate::memory_map::imap_get;
use crate::options::Options;
use crate::script_ops::{emit_repeat, pick_bytes, pick_script, repeat_bytes, roll_bytes, roll_script};
use crate::stack::{
    pull_spec, push_spec, rel_pos_spec, slot_sum, width_spec, Stack, StackEntry,
};

verus! {

/// The compiled program: the ordered snapshot of the declared inputs, the
/// emitted script, and the accumulated hint entries.
pub struct CompiledProgram {
    pub input: Vec<MemoryEntry>,
    pub script: bitcoin::ScriptBuf,
    pub hint: Vec<MemoryEntry>,
}

/// The mathematical value of a [`CompiledProgram`].
pub struct CompiledV {
    pub input: Seq<MemoryEntryV>,
    pub script: Seq<u8>,
    pub hint: Seq<MemoryEntryV>,
}

/// The replay state: the simulated stack, the bytes emitted so far, the
/// next index the emitted program will produce, and the call time.
pub struct ReplayState {
    pub stack: Seq<StackEntry>,
    pub script: Seq<u8>,
    pub alloc_next: int,
    pub time: int,
}

/// The last-visit fold: walks the trace, counting call time from `cur`,
/// and keeps in `acc` the latest call time at which `idx` was read.
pub open spec fn last_visit_from(trace: Seq<TraceEntryV>, idx: usize, cur: int, acc: int) -> int
    decreases trace.len(),
{
    if trace.len() == 0 {
        acc
    } else {
        match trace.first() {
            TraceEntryV::FunctionCall(_, ins) => last_visit_from(
                trace.drop_first(),
                idx,
                cur + 1,
                if ins.contains(idx) {
                    cur
                } else {
                    acc
                },
            ),
            TraceEntryV::FunctionCallWithOptions(_, ins, _) => last_visit_from(
                trace.drop_first(),
                idx,
                cur + 1,
                if ins.contains(idx) {
                    cur
                } else {
                    acc
                },
            ),
            _ => last_visit_from(trace.drop_first(), idx, cur, acc),
        }
    }
}

/// The call time of the last function call that reads `idx`; -1 if no call
/// reads it.
pub open spec fn last_visit(trace: Seq<TraceEntryV>, idx: usize) -> int {
    last_visit_from(trace, idx, 0, -1)
}

/// The declared width of the memory entry at `idx`, per the type registry.
pub open spec fn type_width<G>(d: DslV<G>, idx: usize) -> int {
    d.types[d.memory[idx].data_type].element_type.width() as int
}

/// Materializes the non-reference arguments of one call, from position `i`
/// on: each is moved (rolled) if this call is its last reader, it does not
/// occur among the remaining arguments, and it is not a declared output;
/// otherwise it is copied (picked).  `copied` counts the slots already
/// placed above the stack by earlier arguments of this same call.
pub open spec fn mat_rec<G>(
    d: DslV<G>,
    stack: Seq<StackEntry>,
    inputs: Seq<usize>,
    formals: Seq<FormalParamV>,
    i: int,
    copied: int,
    time: int,
    bytes: Seq<u8>,
) -> Result<(Seq<StackEntry>, Seq<u8>), CompileErrV>
    decreases formals.len() - i,
{
    if i < 0 || i >= formals.len() || i >= inputs.len() {
        Ok((stack, bytes))
    } else if formals[i].by_ref {
        mat_rec(d, stack, inputs, formals, i + 1, copied, time, bytes)
    } else {
        let idx = inputs[i];
        if !d.memory.contains_key(idx) {
            Err(CompileErrV::IndexNotInMemory)
        } else if !d.types.contains_key(d.memory[idx].data_type) {
            Err(CompileErrV::DataTypeNotRegistered)
        } else {
            let w = type_width(d, idx);
            match rel_pos_spec(stack, idx) {
                None => Err(CompileErrV::StackModel(StackError::NotOnStack)),
                Some(pos) => if pos + copied > usize::MAX {
                    Err(CompileErrV::TooLarge)
                } else if pos + copied > i64::MAX {
                    Err(CompileErrV::TooLarge)
                } else if copied + w > usize::MAX {
                    Err(CompileErrV::TooLarge)
                } else {
                    let distance = pos + copied;
                    if last_visit(d.trace, idx) == time && !inputs.skip(i + 1).contains(idx)
                        && !d.output.contains(idx) {
                        match pull_spec(stack, idx) {
                            None => Err(CompileErrV::StackModel(StackError::NotOnStack)),
                            Some(st2) => mat_rec(
                                d,
                                st2,
                                inputs,
                                formals,
                                i + 1,
                                copied + w,
                                time,
                                bytes + roll_bytes(distance, w),
                            ),
                        }
                    } else {
                        mat_rec(
                            d,
                            stack,
                            inputs,
                            formals,
                            i + 1,
                            copied + w,
                            time,
                            bytes + pick_bytes(distance, w),
                        )
                    }
                },
            }
        }
    }
}

/// The positions of the reference arguments, in declaration order, read
/// after the non-reference arguments have been materialized.
pub open spec fn ref_positions_rec(
    stack: Seq<StackEntry>,
    inputs: Seq<usize>,
    formals: Seq<FormalParamV>,
    i: int,
) -> Result<Seq<usize>, CompileErrV>
    decreases formals.len() - i,
{
    if i < 0 || i >= formals.len() || i >= inputs.len() {
        Ok(Seq::empty())
    } else if !formals[i].by_ref {
        ref_positions_rec(stack, inputs, formals, i + 1)
    } else {
        match rel_pos_spec(stack, inputs[i]) {
            None => Err(CompileErrV::StackModel(StackError::NotOnStack)),
            Some(p) => match ref_positions_rec(stack, inputs, formals, i + 1) {
                Ok(rest) => Ok(seq![p as usize] + rest),
                Err(e) => Err(e),
            },
        }
    }
}

/// Pushes one stack entry per declared output type, at consecutive fresh
/// indices.
pub open spec fn push_outputs_rec<G>(
    d: DslV<G>,
    stack: Seq<StackEntry>,
    outs: Seq<Seq<char>>,
    alloc_next: int,
    i: int,
) -> Result<(Seq<StackEntry>, int), CompileErrV>
    decreases outs.len() - i,
{
    if i < 0 || i >= outs.len() {
        Ok((stack, alloc_next))
    } else if !d.types.contains_key(outs[i]) {
        Err(CompileErrV::DataTypeNotRegistered)
    } else {
        match push_spec(stack, alloc_next as usize, d.types[outs[i]].element_type.width()) {
            Err(e) => Err(CompileErrV::StackModel(e)),
            Ok(st2) => if alloc_next + 1 > usize::MAX {
                Err(CompileErrV::TooLarge)
            } else {
                push_outputs_rec(d, st2, outs, alloc_next + 1, i + 1)
            },
        }
    }
}

/// Replays one trace entry.
pub open spec fn replay_step<G: FunctionGenerator>(
    d: DslV<G>,
    st: ReplayState,
    e: TraceEntryV,
) -> Result<ReplayState, CompileErrV> {
    match e {
        TraceEntryV::AllocatedConstant(idx) => if !d.memory.contains_key(idx) {
            Err(CompileErrV::IndexNotInMemory)
        } else if !d.types.contains_key(d.memory[idx].data_type) {
            Err(CompileErrV::DataTypeNotRegistered)
        } else {
            match push_spec(st.stack, idx, d.types[d.memory[idx].data_type].element_type.width()) {
                Err(e) => Err(CompileErrV::StackModel(e)),
                Ok(st2) => if st.alloc_next + 1 > usize::MAX {
                    Err(CompileErrV::TooLarge)
                } else if !element_pushable(d.memory[idx].data) {
                    Err(CompileErrV::TooLarge)
                } else {
                    Ok(
                        ReplayState {
                            stack: st2,
                            script: st.script + element_push_bytes_of(d.memory[idx].data),
                            alloc_next: st.alloc_next + 1,
                            time: st.time,
                        },
                    )
                },
            }
        },
        TraceEntryV::AllocatedHint(idx) => if !d.memory.contains_key(idx) {
            Err(CompileErrV::IndexNotInMemory)
        } else if !d.types.contains_key(d.memory[idx].data_type) {
            Err(CompileErrV::DataTypeNotRegistered)
        } else {
            let w = type_width(d, idx);
            match push_spec(st.stack, idx, d.types[d.memory[idx].data_type].element_type.width()) {
                Err(e) => Err(CompileErrV::StackModel(e)),
                Ok(st2) => if st.alloc_next + 1 > usize::MAX {
                    Err(CompileErrV::TooLarge)
                } else {
                    Ok(
                        ReplayState {
                            stack: st2,
                            script: st.script + repeat_bytes(
                                seq![OP_DEPTH, OP_1SUB, OP_ROLL],
                                w,
                            ),
                            alloc_next: st.alloc_next + 1,
                            time: st.time,
                        },
                    )
                },
            }
        },
        TraceEntryV::FunctionCall(name, ins) => if !d.functions.contains_key(name) {
            Err(CompileErrV::FunctionNotRegistered)
        } else {
            let m = d.functions[name];
            match mat_rec(d, st.stack, ins, m.input, 0, 0, st.time, Seq::empty()) {
                Err(e) => Err(e),
                Ok((st2, matbytes)) => match ref_positions_rec(st2, ins, m.input, 0) {
                    Err(e) => Err(e),
                    Ok(refs) => {
                        let gen_out = if m.accepts_options {
                            m.generator.script_with_options_spec(refs, no_options())
                        } else {
                            m.generator.script_spec(refs)
                        };
                        match gen_out {
                            None => Err(CompileErrV::ScriptGeneratorFailed),
                            Some(gb) => match push_outputs_rec(d, st2, m.output, st.alloc_next, 0) {
                                Err(e) => Err(e),
                                Ok((st3, alloc2)) => Ok(
                                    ReplayState {
                                        stack: st3,
                                        script: st.script + matbytes + gb,
                                        alloc_next: alloc2,
                                        time: st.time + 1,
                                    },
                                ),
                            },
                        }
                    },
                },
            }
        },
        TraceEntryV::FunctionCallWithOptions(name, ins, o) => if !d.functions.contains_key(name) {
            Err(CompileErrV::FunctionNotRegistered)
        } else {
            let m = d.functions[name];
            if !m.accepts_options {
                Err(CompileErrV::OptionsNotAccepted)
            } else {
                match mat_rec(d, st.stack, ins, m.input, 0, 0, st.time, Seq::empty()) {
                    Err(e) => Err(e),
                    Ok((st2, matbytes)) => match ref_positions_rec(st2, ins, m.input, 0) {
                        Err(e) => Err(e),
                        Ok(refs) => match m.generator.script_with_options_spec(refs, o) {
                            None => Err(CompileErrV::ScriptGeneratorFailed),
                            Some(gb) => match push_outputs_rec(d, st2, m.output, st.alloc_next, 0) {
                                Err(e) => Err(e),
                                Ok((st3, alloc2)) => Ok(
                                    ReplayState {
                                        stack: st3,
                                        script: st.script + matbytes + gb,
                                        alloc_next: alloc2,
                                        time: st.time + 1,
                                    },
                                ),
                            },
                        },
                    },
                }
            }
        },
    }
}

/// The ordered snapshot of the first `n` memory entries.
pub open spec fn input_snapshot_rec<G>(d: DslV<G>, i: int, n: int) -> Result<
    Seq<MemoryEntryV>,
    CompileErrV,
>
    decreases n - i,
{
    if i < 0 || i >= n {
        Ok(Seq::empty())
    } else if !d.memory.contains_key(i as usize) {
        Err(CompileErrV::IndexNotInMemory)
    } else {
        match input_snapshot_rec(d, i + 1, n) {
            Ok(rest) => Ok(seq![d.memory[i as usize]] + rest),
            Err(e) => Err(e),
        }
    }
}

/// Pushes the inputs onto an empty stack, in allocation order, each with
/// the width of its snapshot data.
pub open spec fn init_stack_rec(
    stack: Seq<StackEntry>,
    snap: Seq<MemoryEntryV>,
    i: int,
) -> Result<Seq<StackEntry>, CompileErrV>
    decreases snap.len() - i,
{
    if i < 0 || i >= snap.len() {
        Ok(stack)
    } else {
        match push_spec(stack, i as usize, snap[i].data.slot_count() as usize) {
            Err(e) => Err(CompileErrV::StackModel(e)),
            Ok(st2) => init_stack_rec(st2, snap, i + 1),
        }
    }
}

/// The number of declared inputs.
pub open spec fn input_count<G>(d: DslV<G>) -> int {
    match d.num_inputs {
        Some(n) => n as int,
        None => 0,
    }
}

/// The replay state after the first `k` trace entries.
pub open spec fn replay_prefix<G: FunctionGenerator>(d: DslV<G>, k: int) -> Result<
    ReplayState,
    CompileErrV,
>
    decreases k,
{
    if k <= 0 {
        match input_snapshot_rec(d, 0, input_count(d)) {
            Err(e) => Err(e),
            Ok(snap) => match init_stack_rec(Seq::empty(), snap, 0) {
                Err(e) => Err(e),
                Ok(stack) => Ok(
                    ReplayState {
                        stack,
                        script: Seq::empty(),
                        alloc_next: input_count(d),
                        time: 0,
                    },
                ),
            },
        }
    } else {
        match replay_prefix(d, k - 1) {
            Err(e) => Err(e),
            Ok(st) => replay_step(d, st, d.trace[k - 1]),
        }
    }
}

/// Drains the declared outputs, reversed, to the auxiliary stack: each is
/// picked if it occurs again later in the reversed list, else rolled.  The
/// result carries the remaining stack, the emitted bytes, the total output
/// width, and the indices moved to the auxiliary stack, in order.
pub open spec fn drain_rec(
    stack: Seq<StackEntry>,
    outputs_rev: Seq<usize>,
    i: int,
    bytes: Seq<u8>,
    total: int,
    alt: Seq<usize>,
) -> Result<(Seq<StackEntry>, Seq<u8>, int, Seq<usize>), CompileErrV>
    decreases outputs_rev.len() - i,
{
    if i < 0 || i >= outputs_rev.len() {
        Ok((stack, bytes, total, alt))
    } else {
        let idx = outputs_rev[i];
        match (rel_pos_spec(stack, idx), width_spec(stack, idx)) {
            (Some(pos), Some(w)) => if pos > i64::MAX {
                Err(CompileErrV::TooLarge)
            } else if total + w > usize::MAX {
                Err(CompileErrV::TooLarge)
            } else {
                if outputs_rev.skip(i + 1).contains(idx) {
                    drain_rec(
                        stack,
                        outputs_rev,
                        i + 1,
                        bytes + repeat_bytes(int_push_bytes_of(pos) + seq![OP_PICK], w as int)
                            + repeat_bytes(seq![OP_TOALTSTACK], w as int),
                        total + w,
                        alt.push(idx),
                    )
                } else {
                    match pull_spec(stack, idx) {
                        None => Err(CompileErrV::StackModel(StackError::NotOnStack)),
                        Some(st2) => drain_rec(
                            st2,
                            outputs_rev,
                            i + 1,
                            bytes + repeat_bytes(int_push_bytes_of(pos) + seq![OP_ROLL], w as int)
                                + repeat_bytes(seq![OP_TOALTSTACK], w as int),
                            total + w,
                            alt.push(idx),
                        ),
                    }
                }
            },
            _ => Err(CompileErrV::StackModel(StackError::NotOnStack)),
        }
    }
}

/// The cleanup bytes: paired drops for the remaining slots, one single
/// drop if their count is odd, then the restores of the drained outputs.
pub open spec fn cleanup_bytes(remaining: int, total: int) -> Seq<u8> {
    repeat_bytes(seq![OP_2DROP], remaining / 2) + repeat_bytes(seq![OP_DROP], remaining % 2)
        + repeat_bytes(seq![OP_FROMALTSTACK], total)
}

/// The outcome of compiling a DSL: the compiled program's value, or the
/// exact error.
pub open spec fn compile_spec<G: FunctionGenerator>(d: DslV<G>) -> Result<CompiledV, CompileErrV> {
    match input_snapshot_rec(d, 0, input_count(d)) {
        Err(e) => Err(e),
        Ok(snap) => match replay_prefix(d, d.trace.len() as int) {
            Err(e) => Err(e),
            Ok(st) => match drain_rec(st.stack, d.output.reverse(), 0, Seq::empty(), 0, Seq::empty()) {
                Err(e) => Err(e),
                Ok((st2, dbytes, total, _alt)) => Ok(
                    CompiledV {
                        input: snap,
                        script: st.script + dbytes + cleanup_bytes(slot_sum(st2), total),
                        hint: d.hint,
                    },
                ),
            },
        },
    }
}


/// Whether a vector of indices contains a value.
fn vec_contains(v: &Vec<usize>, x: usize) -> (r: bool)
    ensures
        r == v@.contains(x),
{
    let mut i: usize = 0;
    while i < v.len()
        invariant
            i <= v.len(),
            forall|j: int| 0 <= j < i ==> v@[j] != x,
        decreases v.len() - i,
    {
        if v[i] == x {
            proof {
                assert(v@[i as int] == x);
            }
            return true;
        }
        i = i + 1;
    }
    proof {
        assert(!v@.contains(x)) by {
            if v@.contains(x) {
                let j = choose|j: int| 0 <= j < v@.len() && v@[j] == x;
                assert(v@[j] != x);
            }
        }
    }
    false
}

/// Whether the suffix of a vector of indices, from `from` on, contains a
/// value.
fn vec_contains_from(v: &Vec<usize>, from: usize, x: usize) -> (r: bool)
    requires
        from <= v@.len(),
    ensures
        r == v@.skip(from as int).contains(x),
{
    let ghost sfx = v@.skip(from as int);
    let mut i: usize = from;
    while i < v.len()
        invariant
            from <= i <= v.len(),
            sfx == v@.skip(from as int),
            forall|j: int| from <= j < i ==> v@[j] != x,
        decreases v.len() - i,
    {
        if v[i] == x {
            proof {
                assert(sfx[i as int - from as int] == x);
            }
            return true;
        }
        i = i + 1;
    }
    proof {
        assert(!sfx.contains(x)) by {
            if sfx.contains(x) {
                let j = choose|j: int| 0 <= j < sfx.len() && sfx[j] == x;
                assert(v@[j + from as int] != x);
            }
        }
    }
    false
}

/// Whether the given call time is the last at which any function call
/// reads the index.
fn is_last_visit(trace: &Vec<TraceEntry>, idx: usize, time: usize) -> (r: bool)
    ensures
        r == (last_visit(trace.deep_view(), idx) == time as int),
{
    let ghost tv = trace.deep_view();
    let mut k: usize = 0;
    let mut cur: usize = 0;
    let mut acc_is_some: bool = false;
    let mut acc: usize = 0;
    proof {
        assert(tv.skip(0) =~= tv);
    }
    while k < trace.len()
        invariant
            k <= trace.len(),
            cur <= k,
            tv == trace.deep_view(),
            tv.len() == trace@.len(),
            last_visit(tv, idx) == last_visit_from(
                tv.skip(k as int),
                idx,
                cur as int,
                if acc_is_some {
                    acc as int
                } else {
                    -1
                },
            ),
        decreases trace.len() - k,
    {
        proof {
            assert(tv.skip(k as int).first() == tv[k as int]);
            assert(tv.skip(k as int).drop_first() =~= tv.skip(k as int + 1));
        }
        match &trace[k] {
            TraceEntry::FunctionCall(_, ins) => {
                if vec_contains(ins, idx) {
                    acc_is_some = true;
                    acc = cur;
                }
                cur = cur + 1;
            },
            TraceEntry::FunctionCallWithOptions(_, ins, _) => {
                if vec_contains(ins, idx) {
                    acc_is_some = true;
                    acc = cur;
                }
                cur = cur + 1;
            },
            _ => {},
        }
        k = k + 1;
    }
    proof {
        assert(tv.skip(tv.len() as int) =~= Seq::<TraceEntryV>::empty());
    }
    if acc_is_some {
        acc == time
    } else {
        false
    }
}

/// Materializes the non-reference arguments of one call onto the stack top
/// and returns the emitted bytes.
fn materialize_call<G: FunctionGenerator>(
    dsl: &DSL<G>,
    stack: &mut Stack,
    inputs: &Vec<usize>,
    formals: &Vec<FormalParam>,
    time: usize,
) -> (r: Result<Vec<u8>, CompileError>)
    requires
        old(stack).wf(),
    ensures
        final(stack).wf(),
        match r {
            Ok(b) => mat_rec(
                dsl@,
                old(stack)@,
                inputs@,
                formals.deep_view(),
                0,
                0,
                time as int,
                Seq::empty(),
            ) == Ok::<(Seq<StackEntry>, Seq<u8>), CompileErrV>((final(stack)@, b@)),
            Err(e) => mat_rec(
                dsl@,
                old(stack)@,
                inputs@,
                formals.deep_view(),
                0,
                0,
                time as int,
                Seq::empty(),
            ) == Err::<(Seq<StackEntry>, Seq<u8>), CompileErrV>(e@),
        },
{
    let ghost d = dsl@;
    let ghost fv = formals.deep_view();
    let ghost st0 = stack@;
    let mut b: Vec<u8> = Vec::new();
    let mut copied: usize = 0;
    let mut i: usize = 0;
    proof {
        assert(b@ =~= Seq::<u8>::empty());
    }
    while i < formals.len() && i < inputs.len()
        invariant
            i <= formals.len(),
            d == dsl@,
            st0 == old(stack)@,
            fv == formals.deep_view(),
            fv.len() == formals@.len(),
            stack.wf(),
            mat_rec(d, st0, inputs@, fv, 0, 0, time as int, Seq::empty()) == mat_rec(
                d,
                stack@,
                inputs@,
                fv,
                i as int,
                copied as int,
                time as int,
                b@,
            ),
        decreases formals.len() - i,
    {
        let ghost st_head = stack@;
        let ghost b_head = b@;
        let ghost copied_head = copied as int;
        if !formals[i].by_ref {
            let idx = inputs[i];
            let entry = match imap_get(&dsl.memory, idx) {
                Some(e) => e,
                None => {
                    proof {
                        assert(!d.memory.contains_key(idx));
                        assert(mat_rec(d, stack@, inputs@, fv, i as int, copied as int,
                            time as int, b@) == Err::<(Seq<StackEntry>, Seq<u8>), CompileErrV>(
                            CompileErrV::IndexNotInMemory));
                    }
                    return Err(CompileError::IndexNotInMemory);
                },
            };
            proof {
                assert(d.memory.contains_key(idx) && d.memory[idx] == entry@);
            }
            let tmeta = match dsl.data_type_registry.get(entry.data_type.as_str()) {
                Some(m) => m,
                None => {
                    proof {
                        assert(!d.types.contains_key(d.memory[idx].data_type));
                        assert(mat_rec(d, stack@, inputs@, fv, i as int, copied as int,
                            time as int, b@) == Err::<(Seq<StackEntry>, Seq<u8>), CompileErrV>(
                            CompileErrV::DataTypeNotRegistered));
                    }
                    return Err(CompileError::DataTypeNotRegistered);
                },
            };
            let w = tmeta.element_type.len();
            let pos = match stack.get_relative_position(idx) {
                Ok(p) => p,
                Err(e) => {
                    return Err(CompileError::StackModel(e));
                },
            };
            if copied > usize::MAX - pos {
                return Err(CompileError::TooLarge);
            }
            let distance = pos + copied;
            if (distance as u64) > (i64::MAX as u64) {
                return Err(CompileError::TooLarge);
            }
            if w > usize::MAX - copied {
                return Err(CompileError::TooLarge);
            }
            let dies = is_last_visit(&dsl.trace, idx, time) && !vec_contains_from(
                inputs,
                i + 1,
                idx,
            ) && !vec_contains(&dsl.output, idx);
            let mut chunk = if dies {
                match stack.pull(idx) {
                    Ok(()) => {},
                    Err(e) => {
                        return Err(CompileError::StackModel(e));
                    },
                }
                roll_script(distance, w)
            } else {
                pick_script(distance, w)
            };
            let ghost chunk_v = chunk@;
            b.append(&mut chunk);
            copied = copied + w;
            proof {
                assert(b@ =~= b_head + chunk_v);
            }
        }
        i = i + 1;
        proof {
            assert(mat_rec(d, st_head, inputs@, fv, i as int - 1, copied_head, time as int, b_head)
                == mat_rec(d, stack@, inputs@, fv, i as int, copied as int, time as int, b@));
        }
    }
    Ok(b)
}

/// Collects the positions of the reference arguments, in declaration
/// order.
fn collect_ref_positions(
    stack: &Stack,
    inputs: &Vec<usize>,
    formals: &Vec<FormalParam>,
) -> (r: Result<Vec<usize>, CompileError>)
    requires
        stack.wf(),
    ensures
        match r {
            Ok(v) => ref_positions_rec(stack@, inputs@, formals.deep_view(), 0) == Ok::<
                Seq<usize>,
                CompileErrV,
            >(v@),
            Err(e) => ref_positions_rec(stack@, inputs@, formals.deep_view(), 0) == Err::<
                Seq<usize>,
                CompileErrV,
            >(e@),
        },
{
    let ghost fv = formals.deep_view();
    let mut refs: Vec<usize> = Vec::new();
    let mut i: usize = 0;
    while i < formals.len() && i < inputs.len()
        invariant
            i <= formals.len(),
            stack.wf(),
            fv == formals.deep_view(),
            fv.len() == formals@.len(),
            ref_positions_rec(stack@, inputs@, fv, 0) == (match ref_positions_rec(
                stack@,
                inputs@,
                fv,
                i as int,
            ) {
                Ok(rest) => Ok::<Seq<usize>, CompileErrV>(refs@ + rest),
                Err(e) => Err::<Seq<usize>, CompileErrV>(e),
            }),
        decreases formals.len() - i,
    {
        let ghost refs_head = refs@;
        if formals[i].by_ref {
            let idx = inputs[i];
            let pos = match stack.get_relative_position(idx) {
                Ok(p) => p,
                Err(e) => {
                    return Err(CompileError::StackModel(e));
                },
            };
            refs.push(pos);
            proof {
                let ci = ref_positions_rec(stack@, inputs@, fv, i as int + 1);
                if ci is Ok {
                    assert(refs_head + (seq![pos] + ci->Ok_0) =~= refs@ + ci->Ok_0);
                }
            }
        }
        i = i + 1;
    }
    proof {
        assert(refs@ + Seq::<usize>::empty() =~= refs@);
    }
    Ok(refs)
}

/// Pushes one stack entry per declared output type at consecutive fresh
/// indices.
fn push_call_outputs<G: FunctionGenerator>(
    dsl: &DSL<G>,
    stack: &mut Stack,
    outs: &Vec<String>,
    allocated_idx: &mut usize,
) -> (r: Result<(), CompileError>)
    requires
        old(stack).wf(),
    ensures
        final(stack).wf(),
        match r {
            Ok(()) => push_outputs_rec(
                dsl@,
                old(stack)@,
                outs.deep_view(),
                *old(allocated_idx) as int,
                0,
            ) == Ok::<(Seq<StackEntry>, int), CompileErrV>(
                (final(stack)@, *final(allocated_idx) as int),
            ),
            Err(e) => push_outputs_rec(
                dsl@,
                old(stack)@,
                outs.deep_view(),
                *old(allocated_idx) as int,
                0,
            ) == Err::<(Seq<StackEntry>, int), CompileErrV>(e@),
        },
{
    let ghost d = dsl@;
    let ghost ov = outs.deep_view();
    let ghost st0 = stack@;
    let ghost a0 = *allocated_idx as int;
    let mut i: usize = 0;
    while i < outs.len()
        invariant
            i <= outs.len(),
            d == dsl@,
            st0 == old(stack)@,
            a0 == *old(allocated_idx) as int,
            ov == outs.deep_view(),
            ov.len() == outs@.len(),
            stack.wf(),
            push_outputs_rec(d, st0, ov, a0, 0) == push_outputs_rec(
                d,
                stack@,
                ov,
                *allocated_idx as int,
                i as int,
            ),
        decreases outs.len() - i,
    {
        let ghost st_head = stack@;
        let ghost a_head = *allocated_idx as int;
        proof {
            assert(ov[i as int] == outs@[i as int]@);
        }
        let tmeta = match dsl.data_type_registry.get(outs[i].as_str()) {
            Some(m) => m,
            None => {
                proof {
                    assert(!d.types.contains_key(ov[i as int]));
                    assert(push_outputs_rec(d, stack@, ov, *allocated_idx as int, i as int)
                        == Err::<(Seq<StackEntry>, int), CompileErrV>(
                        CompileErrV::DataTypeNotRegistered));
                }
                return Err(CompileError::DataTypeNotRegistered);
            },
        };
        let w = tmeta.element_type.len();
        match stack.push_to_stack(*allocated_idx, w) {
            Ok(()) => {},
            Err(e) => {
                proof {
                    assert(push_outputs_rec(d, st_head, ov, a_head, i as int) == Err::<
                        (Seq<StackEntry>, int),
                        CompileErrV,
                    >(CompileErrV::StackModel(e)));
                }
                return Err(CompileError::StackModel(e));
            },
        }
        if *allocated_idx == usize::MAX {
            proof {
                assert(push_outputs_rec(d, st_head, ov, a_head, i as int) == Err::<
                    (Seq<StackEntry>, int),
                    CompileErrV,
                >(CompileErrV::TooLarge));
            }
            return Err(CompileError::TooLarge);
        }
        *allocated_idx = *allocated_idx + 1;
        i = i + 1;
        proof {
            assert(push_outputs_rec(d, st_head, ov, a_head, i as int - 1) == push_outputs_rec(
                d,
                stack@,
                ov,
                *allocated_idx as int,
                i as int,
            ));
        }
    }
    Ok(())
}


/// An error prefix stays an error for every longer prefix.
proof fn lemma_replay_prefix_err<G: FunctionGenerator>(d: DslV<G>, k: int, k2: int)
    requires
        0 <= k <= k2,
        replay_prefix(d, k) is Err,
    ensures
        replay_prefix(d, k2) == replay_prefix(d, k),
    decreases k2 - k,
{
    if k2 > k {
        lemma_replay_prefix_err(d, k, k2 - 1);
    }
}

/// A failing step at entry `k` decides the whole compilation's error.
proof fn lemma_step_err_compile<G: FunctionGenerator>(d: DslV<G>, k: int, ev: CompileErrV)
    requires
        0 <= k < d.trace.len(),
        input_snapshot_rec(d, 0, input_count(d)) is Ok,
        replay_prefix(d, k) is Ok,
        replay_step(d, replay_prefix(d, k)->Ok_0, d.trace[k]) == Err::<ReplayState, CompileErrV>(
            ev,
        ),
    ensures
        compile_spec(d) == Err::<CompiledV, CompileErrV>(ev),
{
    assert(replay_prefix(d, k + 1) == Err::<ReplayState, CompileErrV>(ev));
    lemma_replay_prefix_err(d, k + 1, d.trace.len() as int);
}

/// Drains the declared outputs, reversed, to the auxiliary stack and
/// returns the emitted bytes and the total output width.
fn drain_outputs(stack: &mut Stack, rev: &Vec<usize>) -> (r: Result<(Vec<u8>, usize), CompileError>)
    requires
        old(stack).wf(),
    ensures
        final(stack).wf(),
        match r {
            Ok(p) => {
                &&& drain_rec(old(stack)@, rev@, 0, Seq::empty(), 0, Seq::empty()) is Ok
                &&& drain_rec(old(stack)@, rev@, 0, Seq::empty(), 0, Seq::empty())->Ok_0.0
                    == final(stack)@
                &&& drain_rec(old(stack)@, rev@, 0, Seq::empty(), 0, Seq::empty())->Ok_0.1 == p.0@
                &&& drain_rec(old(stack)@, rev@, 0, Seq::empty(), 0, Seq::empty())->Ok_0.2 == p.1
                    as int
            },
            Err(e) => drain_rec(old(stack)@, rev@, 0, Seq::empty(), 0, Seq::empty()) == Err::<
                (Seq<StackEntry>, Seq<u8>, int, Seq<usize>),
                CompileErrV,
            >(e@),
        },
{
    let ghost st0 = stack@;
    let mut b: Vec<u8> = Vec::new();
    let mut total: usize = 0;
    let ghost mut alt: Seq<usize> = Seq::empty();
    let mut i: usize = 0;
    proof {
        assert(b@ =~= Seq::<u8>::empty());
    }
    while i < rev.len()
        invariant
            i <= rev.len(),
            st0 == old(stack)@,
            stack.wf(),
            drain_rec(st0, rev@, 0, Seq::empty(), 0, Seq::empty()) == drain_rec(
                stack@,
                rev@,
                i as int,
                b@,
                total as int,
                alt,
            ),
        decreases rev.len() - i,
    {
        let ghost st_head = stack@;
        let ghost b_head = b@;
        let ghost total_head = total as int;
        let ghost alt_head = alt;
        let idx = rev[i];
        let pos = match stack.get_relative_position(idx) {
            Ok(p) => p,
            Err(e) => {
                proof {
                    crate::stack::lemma_live_rel_pos(st_head, idx);
                }
                return Err(CompileError::StackModel(e));
            },
        };
        let w = match stack.get_length(idx) {
            Ok(w) => w,
            Err(e) => {
                proof {
                    crate::stack::lemma_live_rel_pos(st_head, idx);
                }
                return Err(CompileError::StackModel(e));
            },
        };
        if (pos as u64) > (i64::MAX as u64) {
            return Err(CompileError::TooLarge);
        }
        if w > usize::MAX - total {
            return Err(CompileError::TooLarge);
        }
        let again = vec_contains_from(rev, i + 1, idx);
        let mut ta: Vec<u8> = Vec::new();
        ta.push(opcode_byte_toaltstack());
        proof {
            assert(ta@ =~= seq![OP_TOALTSTACK]);
        }
        if again {
            let mut chunkop = push_int_script(pos as i64);
            chunkop.push(opcode_byte_pick());
            proof {
                assert(chunkop@ =~= int_push_bytes_of(pos as int) + seq![OP_PICK]);
            }
            let mut picks = emit_repeat(&chunkop, w);
            let mut tas = emit_repeat(&ta, w);
            let ghost picks_v = picks@;
            let ghost tas_v = tas@;
            b.append(&mut picks);
            b.append(&mut tas);
            proof {
                assert(b@ =~= b_head + picks_v + tas_v);
            }
        } else {
            match stack.pull(idx) {
                Ok(()) => {},
                Err(e) => {
                    proof {
                        crate::stack::lemma_live_rel_pos(st_head, idx);
                    }
                    return Err(CompileError::StackModel(e));
                },
            }
            let mut chunkop = push_int_script(pos as i64);
            chunkop.push(opcode_byte_roll());
            proof {
                assert(chunkop@ =~= int_push_bytes_of(pos as int) + seq![OP_ROLL]);
            }
            let mut rolls = emit_repeat(&chunkop, w);
            let mut tas = emit_repeat(&ta, w);
            let ghost rolls_v = rolls@;
            let ghost tas_v = tas@;
            b.append(&mut rolls);
            b.append(&mut tas);
            proof {
                assert(b@ =~= b_head + rolls_v + tas_v);
            }
        }
        total = total + w;
        i = i + 1;
        proof {
            alt = alt_head.push(idx);
            assert(drain_rec(st_head, rev@, i as int - 1, b_head, total_head, alt_head)
                == drain_rec(stack@, rev@, i as int, b@, total as int, alt));
        }
    }
    Ok((b, total))
}

/// The lowering driver.
pub struct Compiler;

impl Compiler {
    /// Compiles a completed DSL into a program: replays the trace, drains
    /// the declared outputs to the auxiliary stack, clears the remaining
    /// operand-stack slots, and restores the outputs.  The result is
    /// exactly the outcome of [`compile_spec`] on the DSL's value.
    #[verifier::rlimit(100)]
    pub fn compiler<G: FunctionGenerator>(dsl: DSL<G>) -> (r: Result<CompiledProgram, CompileError>)
        ensures
            match r {
                Ok(p) => {
                    &&& compile_spec(dsl@) is Ok
                    &&& p.input.deep_view() == compile_spec(dsl@)->Ok_0.input
                    &&& script_buf_bytes(p.script) == compile_spec(dsl@)->Ok_0.script
                    &&& p.hint.deep_view() == compile_spec(dsl@)->Ok_0.hint
                },
                Err(e) => compile_spec(dsl@) == Err::<CompiledV, CompileErrV>(e@),
            },
    {
        let ghost d = dsl@;
        let n = match dsl.num_inputs {
            Some(n) => n,
            None => 0,
        };
        proof {
            assert(input_count(d) == n as int);
        }
        let mut input: Vec<MemoryEntry> = Vec::new();
        let mut i: usize = 0;
        proof {
            assert(input.deep_view() =~= Seq::<MemoryEntryV>::empty());
        }
        while i < n
            invariant
                i <= n,
                d == dsl@,
                n as int == input_count(d),
                input.deep_view().len() == i,
                input_snapshot_rec(d, 0, n as int) == (match input_snapshot_rec(
                    d,
                    i as int,
                    n as int,
                ) {
                    Ok(rest) => Ok::<Seq<MemoryEntryV>, CompileErrV>(input.deep_view() + rest),
                    Err(e) => Err::<Seq<MemoryEntryV>, CompileErrV>(e),
                }),
            decreases n - i,
        {
            let entry = match imap_get(&dsl.memory, i) {
                Some(e) => e,
                None => {
                    return Err(CompileError::IndexNotInMemory);
                },
            };
            let ghost prev_dv = input.deep_view();
            input.push(entry.clone());
            i = i + 1;
            proof {
                assert(input.deep_view() =~= prev_dv.push(d.memory[(i - 1) as usize]));
                let ci = input_snapshot_rec(d, i as int, n as int);
                if ci is Ok {
                    assert(prev_dv + (seq![d.memory[(i - 1) as usize]] + ci->Ok_0) =~= input.deep_view()
                        + ci->Ok_0);
                }
            }
        }
        proof {
            assert(input.deep_view() + Seq::<MemoryEntryV>::empty() =~= input.deep_view());
            assert(input_snapshot_rec(d, 0, input_count(d)) == Ok::<Seq<MemoryEntryV>, CompileErrV>(
                input.deep_view(),
            ));
        }
        let ghost snap = input.deep_view();
        let mut stack = Stack::new();
        let mut i: usize = 0;
        while i < input.len()
            invariant
                i <= input.len(),
                d == dsl@,
                stack.wf(),
                snap == input.deep_view(),
                snap.len() == input@.len(),
                input_snapshot_rec(d, 0, input_count(d)) == Ok::<Seq<MemoryEntryV>, CompileErrV>(
                    snap,
                ),
                init_stack_rec(Seq::empty(), snap, 0) == init_stack_rec(stack@, snap, i as int),
            decreases input.len() - i,
        {
            let ghost st_head = stack@;
            let w = input[i].data.len();
            match stack.push_to_stack(i, w) {
                Ok(()) => {},
                Err(e) => {
                    proof {
                        assert(init_stack_rec(st_head, snap, i as int) == Err::<
                            Seq<StackEntry>,
                            CompileErrV,
                        >(CompileErrV::StackModel(e)));
                        assert(replay_prefix(d, 0) == Err::<ReplayState, CompileErrV>(
                            CompileErrV::StackModel(e),
                        ));
                        lemma_replay_prefix_err(d, 0, d.trace.len() as int);
                    }
                    return Err(CompileError::StackModel(e));
                },
            }
            i = i + 1;
            proof {
                assert(init_stack_rec(st_head, snap, i as int - 1) == init_stack_rec(
                    stack@,
                    snap,
                    i as int,
                ));
            }
        }
        let mut script: Vec<u8> = Vec::new();
        let mut cur_time: usize = 0;
        let mut allocated_idx: usize = n;
        let mut k: usize = 0;
        proof {
            assert(script@ =~= Seq::<u8>::empty());
            assert(replay_prefix(d, 0) == Ok::<ReplayState, CompileErrV>(
                ReplayState {
                    stack: stack@,
                    script: script@,
                    alloc_next: allocated_idx as int,
                    time: cur_time as int,
                },
            ));
        }
        while k < dsl.trace.len()
            invariant
                k <= dsl.trace@.len(),
                cur_time <= k,
                d == dsl@,
                d.trace.len() == dsl.trace@.len(),
                stack.wf(),
                input_snapshot_rec(d, 0, input_count(d)) is Ok,
                replay_prefix(d, k as int) == Ok::<ReplayState, CompileErrV>(
                    ReplayState {
                        stack: stack@,
                        script: script@,
                        alloc_next: allocated_idx as int,
                        time: cur_time as int,
                    },
                ),
            decreases dsl.trace@.len() - k,
        {
            let ghost st_head = ReplayState {
                stack: stack@,
                script: script@,
                alloc_next: allocated_idx as int,
                time: cur_time as int,
            };
            proof {
                assert(d.trace[k as int] == dsl.trace@[k as int]@);
            }
            match &dsl.trace[k] {
                TraceEntry::AllocatedConstant(idx_ref) => {
                    let idx = *idx_ref;
                    let entry = match imap_get(&dsl.memory, idx) {
                        Some(e) => e,
                        None => {
                            proof {
                                lemma_step_err_compile(d, k as int, CompileErrV::IndexNotInMemory);
                            }
                            return Err(CompileError::IndexNotInMemory);
                        },
                    };
                    proof {
                        assert(d.memory[idx] == entry@);
                    }
                    let tmeta = match dsl.data_type_registry.get(entry.data_type.as_str()) {
                        Some(m) => m,
                        None => {
                            proof {
                                lemma_step_err_compile(
                                    d,
                                    k as int,
                                    CompileErrV::DataTypeNotRegistered,
                                );
                            }
                            return Err(CompileError::DataTypeNotRegistered);
                        },
                    };
                    let w = tmeta.element_type.len();
                    match stack.push_to_stack(idx, w) {
                        Ok(()) => {},
                        Err(e) => {
                            proof {
                                lemma_step_err_compile(d, k as int, CompileErrV::StackModel(e));
                            }
                            return Err(CompileError::StackModel(e));
                        },
                    }
                    if allocated_idx == usize::MAX {
                        proof {
                            lemma_step_err_compile(d, k as int, CompileErrV::TooLarge);
                        }
                        return Err(CompileError::TooLarge);
                    }
                    allocated_idx = allocated_idx + 1;
                    let mut pb = match element_push_script(&entry.data) {
                        Ok(b) => b,
                        Err(e) => {
                            proof {
                                lemma_step_err_compile(d, k as int, CompileErrV::TooLarge);
                            }
                            return Err(e);
                        },
                    };
                    let ghost pb_v = pb@;
                    script.append(&mut pb);
                    k = k + 1;
                    proof {
                        assert(script@ =~= st_head.script + element_push_bytes_of(
                            d.memory[idx].data,
                        ));
                        assert(replay_step(d, st_head, d.trace[k as int - 1]) == Ok::<
                            ReplayState,
                            CompileErrV,
                        >(
                            ReplayState {
                                stack: stack@,
                                script: script@,
                                alloc_next: allocated_idx as int,
                                time: cur_time as int,
                            },
                        ));
                    }
                },
                TraceEntry::AllocatedHint(idx_ref) => {
                    let idx = *idx_ref;
                    let entry = match imap_get(&dsl.memory, idx) {
                        Some(e) => e,
                        None => {
                            proof {
                                lemma_step_err_compile(d, k as int, CompileErrV::IndexNotInMemory);
                            }
                            return Err(CompileError::IndexNotInMemory);
                        },
                    };
                    proof {
                        assert(d.memory[idx] == entry@);
                    }
                    let tmeta = match dsl.data_type_registry.get(entry.data_type.as_str()) {
                        Some(m) => m,
                        None => {
                            proof {
                                lemma_step_err_compile(
                                    d,
                                    k as int,
                                    CompileErrV::DataTypeNotRegistered,
                                );
                            }
                            return Err(CompileError::DataTypeNotRegistered);
                        },
                    };
                    let w = tmeta.element_type.len();
                    match stack.push_to_stack(idx, w) {
                        Ok(()) => {},
                        Err(e) => {
                            proof {
                                lemma_step_err_compile(d, k as int, CompileErrV::StackModel(e));
                            }
                            return Err(CompileError::StackModel(e));
                        },
                    }
                    if allocated_idx == usize::MAX {
                        proof {
                            lemma_step_err_compile(d, k as int, CompileErrV::TooLarge);
                        }
                        return Err(CompileError::TooLarge);
                    }
                    allocated_idx = allocated_idx + 1;
                    let mut chunk: Vec<u8> = Vec::new();
                    chunk.push(opcode_byte_depth());
                    chunk.push(opcode_byte_1sub());
                    chunk.push(opcode_byte_roll());
                    proof {
                        assert(chunk@ =~= seq![OP_DEPTH, OP_1SUB, OP_ROLL]);
                    }
                    let mut hb = emit_repeat(&chunk, w);
                    let ghost hb_v = hb@;
                    script.append(&mut hb);
                    k = k + 1;
                    proof {
                        assert(script@ =~= st_head.script + repeat_bytes(
                            seq![OP_DEPTH, OP_1SUB, OP_ROLL],
                            type_width(d, idx),
                        ));
                        assert(replay_step(d, st_head, d.trace[k as int - 1]) == Ok::<
                            ReplayState,
                            CompileErrV,
                        >(
                            ReplayState {
                                stack: stack@,
                                script: script@,
                                alloc_next: allocated_idx as int,
                                time: cur_time as int,
                            },
                        ));
                    }
                },
                TraceEntry::FunctionCall(name, ins) => {
                    let meta_enum = match dsl.function_registry.get(name.as_str()) {
                        Some(m) => m,
                        None => {
                            proof {
                                lemma_step_err_compile(
                                    d,
                                    k as int,
                                    CompileErrV::FunctionNotRegistered,
                                );
                            }
                            return Err(CompileError::FunctionNotRegistered);
                        },
                    };
                    let (meta, accepts) = match meta_enum {
                        AcceptableFunctionMetadata::FunctionWithoutOptions(m) => (m, false),
                        AcceptableFunctionMetadata::FunctionWithOptions(m) => (m, true),
                    };
                    let mut matbytes = match materialize_call(
                        &dsl,
                        &mut stack,
                        ins,
                        &meta.input,
                        cur_time,
                    ) {
                        Ok(b) => b,
                        Err(e) => {
                            proof {
                                lemma_step_err_compile(d, k as int, e@);
                            }
                            return Err(e);
                        },
                    };
                    let refs = match collect_ref_positions(&stack, ins, &meta.input) {
                        Ok(v) => v,
                        Err(e) => {
                            proof {
                                lemma_step_err_compile(d, k as int, e@);
                            }
                            return Err(e);
                        },
                    };
                    let gb_r = if accepts {
                        let empty = Options::new();
                        proof {
                            assert(empty@ == no_options());
                        }
                        meta.generator.script_with_options(&refs, &empty)
                    } else {
                        meta.generator.script(&refs)
                    };
                    let mut gb = match gb_r {
                        Ok(b) => b,
                        Err(msg) => {
                            proof {
                                lemma_step_err_compile(
                                    d,
                                    k as int,
                                    CompileErrV::ScriptGeneratorFailed,
                                );
                            }
                            return Err(CompileError::ScriptGeneratorFailed(msg));
                        },
                    };
                    match push_call_outputs(&dsl, &mut stack, &meta.output, &mut allocated_idx) {
                        Ok(()) => {},
                        Err(e) => {
                            proof {
                                lemma_step_err_compile(d, k as int, e@);
                            }
                            return Err(e);
                        },
                    }
                    let ghost mat_v = matbytes@;
                    let ghost gb_v = gb@;
                    script.append(&mut matbytes);
                    script.append(&mut gb);
                    cur_time = cur_time + 1;
                    k = k + 1;
                    proof {
                        assert(script@ =~= st_head.script + mat_v + gb_v);
                        assert(replay_step(d, st_head, d.trace[k as int - 1]) == Ok::<
                            ReplayState,
                            CompileErrV,
                        >(
                            ReplayState {
                                stack: stack@,
                                script: script@,
                                alloc_next: allocated_idx as int,
                                time: cur_time as int,
                            },
                        ));
                    }
                },
                TraceEntry::FunctionCallWithOptions(name, ins, opts) => {
                    let meta_enum = match dsl.function_registry.get(name.as_str()) {
                        Some(m) => m,
                        None => {
                            proof {
                                lemma_step_err_compile(
                                    d,
                                    k as int,
                                    CompileErrV::FunctionNotRegistered,
                                );
                            }
                            return Err(CompileError::FunctionNotRegistered);
                        },
                    };
                    let meta = match meta_enum {
                        AcceptableFunctionMetadata::FunctionWithoutOptions(_) => {
                            proof {
                                lemma_step_err_compile(d, k as int, CompileErrV::OptionsNotAccepted);
                            }
                            return Err(CompileError::OptionsNotAccepted);
                        },
                        AcceptableFunctionMetadata::FunctionWithOptions(m) => m,
                    };
                    let mut matbytes = match materialize_call(
                        &dsl,
                        &mut stack,
                        ins,
                        &meta.input,
                        cur_time,
                    ) {
                        Ok(b) => b,
                        Err(e) => {
                            proof {
                                lemma_step_err_compile(d, k as int, e@);
                            }
                            return Err(e);
                        },
                    };
                    let refs = match collect_ref_positions(&stack, ins, &meta.input) {
                        Ok(v) => v,
                        Err(e) => {
                            proof {
                                lemma_step_err_compile(d, k as int, e@);
                            }
                            return Err(e);
                        },
                    };
                    let mut gb = match meta.generator.script_with_options(&refs, opts) {
                        Ok(b) => b,
                        Err(msg) => {
                            proof {
                                lemma_step_err_compile(
                                    d,
                                    k as int,
                                    CompileErrV::ScriptGeneratorFailed,
                                );
                            }
                            return Err(CompileError::ScriptGeneratorFailed(msg));
                        },
                    };
                    match push_call_outputs(&dsl, &mut stack, &meta.output, &mut allocated_idx) {
                        Ok(()) => {},
                        Err(e) => {
                            proof {
                                lemma_step_err_compile(d, k as int, e@);
                            }
                            return Err(e);
                        },
                    }
                    let ghost mat_v = matbytes@;
                    let ghost gb_v = gb@;
                    script.append(&mut matbytes);
                    script.append(&mut gb);
                    cur_time = cur_time + 1;
                    k = k + 1;
                    proof {
                        assert(script@ =~= st_head.script + mat_v + gb_v);
                        assert(replay_step(d, st_head, d.trace[k as int - 1]) == Ok::<
                            ReplayState,
                            CompileErrV,
                        >(
                            ReplayState {
                                stack: stack@,
                                script: script@,
                                alloc_next: allocated_idx as int,
                                time: cur_time as int,
                            },
                        ));
                    }
                },
            }
        }
        let ghost st_final = replay_prefix(d, d.trace.len() as int)->Ok_0;
        let mut rev: Vec<usize> = Vec::new();
        let mut i: usize = dsl.output.len();
        while i > 0
            invariant
                i <= dsl.output@.len(),
                rev@.len() == dsl.output@.len() - i,
                forall|j: int| 0 <= j < rev@.len() ==> rev@[j] == dsl.output@[dsl.output@.len() - 1
                    - j],
            decreases i,
        {
            i = i - 1;
            rev.push(dsl.output[i]);
        }
        proof {
            assert(rev@ =~= d.output.reverse());
        }
        let (mut dbytes, total) = match drain_outputs(&mut stack, &rev) {
            Ok(p) => p,
            Err(e) => {
                return Err(e);
            },
        };
        let rem = stack.num_live_slots();
        let mut c2: Vec<u8> = Vec::new();
        c2.push(opcode_byte_2drop());
        let mut c1: Vec<u8> = Vec::new();
        c1.push(opcode_byte_drop());
        let mut cf: Vec<u8> = Vec::new();
        cf.push(opcode_byte_fromaltstack());
        proof {
            assert(c2@ =~= seq![OP_2DROP]);
            assert(c1@ =~= seq![OP_DROP]);
            assert(cf@ =~= seq![OP_FROMALTSTACK]);
        }
        let mut drops = emit_repeat(&c2, rem / 2);
        let mut single = emit_repeat(&c1, rem % 2);
        let mut restores = emit_repeat(&cf, total);
        let ghost db_v = dbytes@;
        let ghost drops_v = drops@;
        let ghost single_v = single@;
        let ghost restores_v = restores@;
        script.append(&mut dbytes);
        script.append(&mut drops);
        script.append(&mut single);
        script.append(&mut restores);
        let ghost final_bytes = script@;
        let script_buf = script_buf_from_bytes(script);
        proof {
            assert(final_bytes =~= st_final.script + db_v + cleanup_bytes(
                slot_sum(stack@),
                total as int,
            ));
            assert(compile_spec(d) is Ok);
            assert(compile_spec(d)->Ok_0.script == final_bytes);
            assert(compile_spec(d)->Ok_0.input == snap);
            assert(compile_spec(d)->Ok_0.hint == d.hint);
        }
        Ok(CompiledProgram { input, script: script_buf, hint: dsl.hint })
    }
}

} // verus!
