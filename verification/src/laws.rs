//! Laws of the compiler, stated over the specification model and proved
//! once for every DSL value.

use vstd::prelude::*;
use crate::compiler::{
    compile_spec, drain_rec, input_count, push_outputs_rec, replay_prefix, replay_step,
    ReplayState,
};
use crate::encode::{element_push_bytes_of, element_pushable};
use crate::errors::CompileErrV;
use crate::memory::MemoryEntryV;
use crate::dsl::{DslV, TraceEntryV};
use crate::encode::{OP_DUP, OP_OVER, OP_PICK, OP_ROLL, OP_ROT, OP_SWAP, int_push_bytes_of};
use crate::functions::FunctionGenerator;
use crate::script_ops::{lemma_repeat_bytes_len, pick_bytes, repeat_bytes, roll_bytes};
use crate::stack::StackEntry;

verus! {

/// Law: a block already at the top needs no bytes — `roll(w-1, w)` emits
/// nothing.
pub proof fn lemma_roll_at_top(width: int)
    ensures
        roll_bytes(width - 1, width) == Seq::<u8>::empty(),
{
}

/// Law: at distance 1 a roll is `width` SWAP bytes.  At width 2 the block
/// is already at the top, so that width is excluded.
pub proof fn lemma_roll_swap(width: int)
    requires
        width >= 0,
        width != 2,
    ensures
        roll_bytes(1, width) == repeat_bytes(seq![OP_SWAP], width),
        roll_bytes(1, width).len() == width,
{
    lemma_repeat_bytes_len(seq![OP_SWAP], width);
    assert(seq![OP_SWAP].len() == 1);
    assert(width * 1 == width) by (nonlinear_arith);
}

/// Law: at distance 2 a roll is `width` ROT bytes.  At width 3 the block
/// is already at the top, so that width is excluded.
pub proof fn lemma_roll_rot(width: int)
    requires
        width >= 0,
        width != 3,
    ensures
        roll_bytes(2, width) == repeat_bytes(seq![OP_ROT], width),
        roll_bytes(2, width).len() == width,
{
    lemma_repeat_bytes_len(seq![OP_ROT], width);
    assert(seq![OP_ROT].len() == 1);
    assert(width * 1 == width) by (nonlinear_arith);
}

/// Law: at any other distance a roll is exactly `width` generic
/// immediate-plus-ROLL pairs.
pub proof fn lemma_roll_generic(distance: int, width: int)
    requires
        distance != width - 1,
        distance != 1,
        distance != 2,
    ensures
        roll_bytes(distance, width) == repeat_bytes(
            int_push_bytes_of(distance) + seq![OP_ROLL],
            width,
        ),
{
}

/// Law: at distance 0 a pick is `width` DUP bytes.
pub proof fn lemma_pick_dup(width: int)
    requires
        width >= 0,
    ensures
        pick_bytes(0, width) == repeat_bytes(seq![OP_DUP], width),
        pick_bytes(0, width).len() == width,
{
    lemma_repeat_bytes_len(seq![OP_DUP], width);
    assert(seq![OP_DUP].len() == 1);
    assert(width * 1 == width) by (nonlinear_arith);
}

/// Law: at distance 1 a pick is `width` OVER bytes.
pub proof fn lemma_pick_over(width: int)
    requires
        width >= 0,
    ensures
        pick_bytes(1, width) == repeat_bytes(seq![OP_OVER], width),
        pick_bytes(1, width).len() == width,
{
    lemma_repeat_bytes_len(seq![OP_OVER], width);
    assert(seq![OP_OVER].len() == 1);
    assert(width * 1 == width) by (nonlinear_arith);
}

/// Law: at any larger distance a pick is exactly `width` generic
/// immediate-plus-PICK pairs.
pub proof fn lemma_pick_generic(distance: int, width: int)
    requires
        distance >= 2,
    ensures
        pick_bytes(distance, width) == repeat_bytes(
            int_push_bytes_of(distance) + seq![OP_PICK],
            width,
        ),
{
}

/// Law: compiling is a function of the DSL value — re-compiling the same
/// DSL produces the identical outcome, in particular a byte-identical
/// script.
pub proof fn lemma_compile_deterministic<G: FunctionGenerator>(d1: DslV<G>, d2: DslV<G>)
    requires
        d1 == d2,
    ensures
        compile_spec(d1) == compile_spec(d2),
{
}

/// Pushing the declared outputs appends one entry per output type, at
/// consecutive fresh indices, and leaves everything beneath unchanged.
pub proof fn lemma_push_outputs_shape<G>(
    d: DslV<G>,
    stack: Seq<StackEntry>,
    outs: Seq<Seq<char>>,
    alloc_next: int,
    i: int,
)
    requires
        0 <= i <= outs.len(),
        alloc_next >= 0,
        push_outputs_rec(d, stack, outs, alloc_next, i) is Ok,
    ensures
        ({
            let (st2, a2) = push_outputs_rec(d, stack, outs, alloc_next, i)->Ok_0;
            &&& a2 == alloc_next + outs.len() - i
            &&& st2.len() == stack.len() + outs.len() - i
            &&& forall|j: int| 0 <= j < stack.len() ==> st2[j] == stack[j]
            &&& forall|j: int|
                stack.len() <= j < st2.len() ==> (#[trigger] st2[j]).idx == alloc_next + (j
                    - stack.len())
        }),
    decreases outs.len() - i,
{
    if i < outs.len() {
        let w = d.types[outs[i]].element_type.width();
        let st_mid = stack.push(StackEntry { idx: alloc_next as usize, width: w });
        assert(push_outputs_rec(d, stack, outs, alloc_next, i) == push_outputs_rec(
            d,
            st_mid,
            outs,
            alloc_next + 1,
            i + 1,
        ));
        lemma_push_outputs_shape(d, st_mid, outs, alloc_next + 1, i + 1);
        let (st2, a2) = push_outputs_rec(d, stack, outs, alloc_next, i)->Ok_0;
        assert(st_mid[stack.len() as int].idx == alloc_next as usize);
        assert(alloc_next as usize as int == alloc_next);
        assert forall|j: int|
            stack.len() <= j < st2.len() implies (#[trigger] st2[j]).idx == alloc_next + (j
            - stack.len()) by {
            if j == stack.len() {
                assert(st2[j] == st_mid[j]);
            }
        }
    }
}

/// A successful output push never lowers the allocation counter.
proof fn lemma_push_outputs_alloc_lb<G>(
    d: DslV<G>,
    stack: Seq<StackEntry>,
    outs: Seq<Seq<char>>,
    alloc_next: int,
    i: int,
)
    requires
        push_outputs_rec(d, stack, outs, alloc_next, i) is Ok,
    ensures
        push_outputs_rec(d, stack, outs, alloc_next, i)->Ok_0.1 >= alloc_next,
    decreases outs.len() - i,
{
    if 0 <= i && i < outs.len() {
        let w = d.types[outs[i]].element_type.width();
        let st_mid = stack.push(StackEntry { idx: alloc_next as usize, width: w });
        lemma_push_outputs_alloc_lb(d, st_mid, outs, alloc_next + 1, i + 1);
    }
}

/// A reachable replay state's allocation counter is never negative.
proof fn lemma_replay_alloc_nonneg<G: FunctionGenerator>(d: DslV<G>, k: int)
    requires
        0 <= k,
        replay_prefix(d, k) is Ok,
    ensures
        replay_prefix(d, k)->Ok_0.alloc_next >= 0,
    decreases k,
{
    if k > 0 {
        lemma_replay_alloc_nonneg(d, k - 1);
        let st = replay_prefix(d, k - 1)->Ok_0;
        match d.trace[k - 1] {
            TraceEntryV::FunctionCall(name, ins) => {
                let m = d.functions[name];
                let mat = crate::compiler::mat_rec(
                    d,
                    st.stack,
                    ins,
                    m.input,
                    0,
                    0,
                    st.time,
                    Seq::empty(),
                );
                lemma_push_outputs_alloc_lb(d, mat->Ok_0.0, m.output, st.alloc_next, 0);
            },
            TraceEntryV::FunctionCallWithOptions(name, ins, _) => {
                let m = d.functions[name];
                let mat = crate::compiler::mat_rec(
                    d,
                    st.stack,
                    ins,
                    m.input,
                    0,
                    0,
                    st.time,
                    Seq::empty(),
                );
                lemma_push_outputs_alloc_lb(d, mat->Ok_0.0, m.output, st.alloc_next, 0);
            },
            _ => {},
        }
    }
}

/// The name of the function a call entry invokes, if the entry is a call.
pub open spec fn call_name(e: TraceEntryV) -> Option<Seq<char>> {
    match e {
        TraceEntryV::FunctionCall(n, _) => Some(n),
        TraceEntryV::FunctionCallWithOptions(n, _, _) => Some(n),
        _ => None,
    }
}

/// Law: after a function call with declared output arity `k` is replayed,
/// exactly `k` new indices are stack-live, and they are the last `k`
/// allocated indices, in order, on top of the stack.
pub proof fn lemma_call_outputs_live<G: FunctionGenerator>(d: DslV<G>, k: int)
    requires
        0 <= k < d.trace.len(),
        call_name(d.trace[k]) is Some,
        replay_prefix(d, k) is Ok,
        replay_prefix(d, k + 1) is Ok,
    ensures
        ({
            let st = replay_prefix(d, k)->Ok_0;
            let st2 = replay_prefix(d, k + 1)->Ok_0;
            let m = d.functions[call_name(d.trace[k])->0];
            &&& st2.alloc_next == st.alloc_next + m.output.len()
            &&& st2.stack.len() >= m.output.len()
            &&& forall|j: int|
                st2.stack.len() - m.output.len() <= j < st2.stack.len() ==> (#[trigger] st2.stack[j]).idx
                    == st.alloc_next + (j - (st2.stack.len() - m.output.len()))
        }),
{
    let st = replay_prefix(d, k)->Ok_0;
    lemma_replay_alloc_nonneg(d, k);
    assert(replay_prefix(d, k + 1) == replay_step(d, st, d.trace[k]));
    match d.trace[k] {
        TraceEntryV::FunctionCall(name, ins) => {
            let m = d.functions[name];
            let mat = crate::compiler::mat_rec(d, st.stack, ins, m.input, 0, 0, st.time, Seq::empty());
            let (stm, _) = mat->Ok_0;
            lemma_push_outputs_shape(d, stm, m.output, st.alloc_next, 0);
        },
        TraceEntryV::FunctionCallWithOptions(name, ins, _) => {
            let m = d.functions[name];
            let mat = crate::compiler::mat_rec(d, st.stack, ins, m.input, 0, 0, st.time, Seq::empty());
            let (stm, _) = mat->Ok_0;
            lemma_push_outputs_shape(d, stm, m.output, st.alloc_next, 0);
        },
        _ => {},
    }
}

/// Drainage appends to the auxiliary stack exactly the output indices it
/// walks, in order.
pub proof fn lemma_drain_alt(
    stack: Seq<StackEntry>,
    outputs_rev: Seq<usize>,
    i: int,
    bytes: Seq<u8>,
    total: int,
    alt: Seq<usize>,
)
    requires
        0 <= i <= outputs_rev.len(),
        drain_rec(stack, outputs_rev, i, bytes, total, alt) is Ok,
    ensures
        drain_rec(stack, outputs_rev, i, bytes, total, alt)->Ok_0.3 =~= alt + outputs_rev.skip(i),
    decreases outputs_rev.len() - i,
{
    if i < outputs_rev.len() {
        let idx = outputs_rev[i];
        let pos = crate::stack::rel_pos_spec(stack, idx)->0;
        let w = crate::stack::width_spec(stack, idx)->0;
        if outputs_rev.skip(i + 1).contains(idx) {
            lemma_drain_alt(
                stack,
                outputs_rev,
                i + 1,
                bytes + repeat_bytes(int_push_bytes_of(pos) + seq![OP_PICK], w as int)
                    + repeat_bytes(seq![crate::encode::OP_TOALTSTACK], w as int),
                total + w,
                alt.push(idx),
            );
        } else {
            let st2 = crate::stack::pull_spec(stack, idx)->0;
            lemma_drain_alt(
                st2,
                outputs_rev,
                i + 1,
                bytes + repeat_bytes(int_push_bytes_of(pos) + seq![OP_ROLL], w as int)
                    + repeat_bytes(seq![crate::encode::OP_TOALTSTACK], w as int),
                total + w,
                alt.push(idx),
            );
        }
        assert(alt.push(idx) + outputs_rev.skip(i + 1) =~= alt + outputs_rev.skip(i));
    } else {
        assert(alt + outputs_rev.skip(i) =~= alt);
    }
}

/// Law: when a compilation succeeds, the drainage leaves on the auxiliary
/// stack exactly the declared outputs, reversed — so every declared output
/// index appears on it, repetitions included; the cleanup then drops every
/// remaining operand-stack slot and restores the outputs.
pub proof fn lemma_outputs_reach_alt<G: FunctionGenerator>(d: DslV<G>)
    requires
        compile_spec(d) is Ok,
    ensures
        ({
            let st = replay_prefix(d, d.trace.len() as int)->Ok_0;
            let dr = drain_rec(st.stack, d.output.reverse(), 0, Seq::empty(), 0, Seq::empty());
            &&& dr is Ok
            &&& dr->Ok_0.3 == d.output.reverse()
            &&& forall|j: int| 0 <= j < d.output.len() ==> dr->Ok_0.3.contains(#[trigger] d.output[j])
        }),
{
    let st = replay_prefix(d, d.trace.len() as int)->Ok_0;
    let dr = drain_rec(st.stack, d.output.reverse(), 0, Seq::empty(), 0, Seq::empty());
    lemma_drain_alt(st.stack, d.output.reverse(), 0, Seq::empty(), 0, Seq::empty());
    assert(Seq::<usize>::empty() + d.output.reverse().skip(0) =~= d.output.reverse());
    assert forall|j: int| 0 <= j < d.output.len() implies dr->Ok_0.3.contains(
        #[trigger] d.output[j],
    ) by {
        assert(d.output.reverse()[d.output.len() - 1 - j] == d.output[j]);
    }
}




/// The input snapshot has one entry per input index.
proof fn lemma_snapshot_len<G>(d: DslV<G>, i: int, n: int)
    requires
        0 <= i <= n,
        crate::compiler::input_snapshot_rec(d, i, n) is Ok,
    ensures
        crate::compiler::input_snapshot_rec(d, i, n)->Ok_0.len() == n - i,
    decreases n - i,
{
    if i < n {
        lemma_snapshot_len(d, i + 1, n);
    }
}

/// The input snapshot's entry at offset `j` is the memory entry at index
/// `i + j`.
proof fn lemma_snapshot_at<G>(d: DslV<G>, i: int, n: int, j: int)
    requires
        0 <= i <= n,
        0 <= j < n - i,
        crate::compiler::input_snapshot_rec(d, i, n) is Ok,
    ensures
        d.memory.contains_key((i + j) as usize),
        crate::compiler::input_snapshot_rec(d, i, n)->Ok_0[j] == d.memory[(i + j) as usize],
    decreases j,
{
    let rest = crate::compiler::input_snapshot_rec(d, i + 1, n)->Ok_0;
    let snap = crate::compiler::input_snapshot_rec(d, i, n)->Ok_0;
    assert(snap == seq![d.memory[i as usize]] + rest);
    if j == 0 {
        assert(snap[0] == d.memory[i as usize]);
    } else {
        lemma_snapshot_at(d, i + 1, n, j - 1);
        lemma_snapshot_len(d, i + 1, n);
        assert(seq![d.memory[i as usize]].len() == 1);
        assert(snap[j] == rest[j - 1]);
    }
}


/// A value that fits a schema occupies exactly the schema's width.
pub proof fn lemma_match_width(e: crate::element::ElementV, t: crate::element::ElementType)
    requires
        e.matches_type(t),
    ensures
        e.slot_count() == t.width(),
{
}

/// Every memory entry fits its registered data type.
pub open spec fn mem_types_wf<G>(d: DslV<G>) -> bool {
    forall|idx: usize| #[trigger]
        d.memory.contains_key(idx) ==> d.types.contains_key(d.memory[idx].data_type)
            && d.memory[idx].data.matches_type(d.types[d.memory[idx].data_type].element_type)
}

/// Each declared output of a call is allocated, in order, at the next
/// indices, with a memory entry of the declared type.
pub open spec fn call_outputs_typed<G>(d: DslV<G>, outs: Seq<Seq<char>>, a: int) -> bool {
    forall|j: int|
        0 <= j < outs.len() ==> d.memory.contains_key((a + j) as usize) && a + j <= usize::MAX
            && (#[trigger] d.memory[(a + j) as usize]).data_type == outs[j]
}

/// The trace allocates memory indices in step with its entries, counting
/// from `a` at position `k`.
pub open spec fn trace_alloc_wf<G>(d: DslV<G>, k: int, a: int) -> bool
    decreases d.trace.len() - k,
{
    if k < 0 || k >= d.trace.len() {
        true
    } else {
        match d.trace[k] {
            TraceEntryV::AllocatedConstant(idx) => idx == a && trace_alloc_wf(d, k + 1, a + 1),
            TraceEntryV::AllocatedHint(idx) => idx == a && trace_alloc_wf(d, k + 1, a + 1),
            TraceEntryV::FunctionCall(name, _) => d.functions.contains_key(name)
                && call_outputs_typed(d, d.functions[name].output, a) && trace_alloc_wf(
                d,
                k + 1,
                a + d.functions[name].output.len(),
            ),
            TraceEntryV::FunctionCallWithOptions(name, _, _) => d.functions.contains_key(name)
                && call_outputs_typed(d, d.functions[name].output, a) && trace_alloc_wf(
                d,
                k + 1,
                a + d.functions[name].output.len(),
            ),
        }
    }
}

/// A front-end-accepted DSL: every memory entry fits its registered type,
/// and the trace allocates in step, starting after the inputs.
pub open spec fn dsl_wf<G>(d: DslV<G>) -> bool {
    &&& mem_types_wf(d)
    &&& trace_alloc_wf(d, 0, input_count(d))
}

/// The allocation counter after the first `k` trace entries.
pub open spec fn alloc_counter<G>(d: DslV<G>, k: int) -> int
    decreases k,
{
    if k <= 0 {
        input_count(d)
    } else {
        alloc_counter(d, k - 1) + (match d.trace[k - 1] {
            TraceEntryV::AllocatedConstant(_) => 1,
            TraceEntryV::AllocatedHint(_) => 1,
            TraceEntryV::FunctionCall(name, _) => d.functions[name].output.len() as int,
            TraceEntryV::FunctionCallWithOptions(name, _, _) => d.functions[name].output.len()
                as int,
        })
    }
}

/// The step-local well-formedness holds at every position, with the
/// counter the allocations so far.
proof fn lemma_trace_wf_at<G: FunctionGenerator>(d: DslV<G>, k: int)
    requires
        dsl_wf(d),
        0 <= k <= d.trace.len(),
    ensures
        trace_alloc_wf(d, k, alloc_counter(d, k)),
    decreases k,
{
    if k > 0 {
        lemma_trace_wf_at(d, k - 1);
    }
}

/// Every live entry names an existing memory cell and carries its
/// registered width.
pub open spec fn widths_ok<G>(d: DslV<G>, s: Seq<StackEntry>) -> bool {
    forall|j: int|
        0 <= j < s.len() ==> d.memory.contains_key((#[trigger] s[j]).idx) && s[j].width as int
            == crate::compiler::type_width(d, s[j].idx)
}

/// Pulling an entry preserves the per-entry width property.
proof fn lemma_pull_widths<G>(d: DslV<G>, s: Seq<StackEntry>, idx: usize)
    requires
        widths_ok(d, s),
        crate::stack::pull_spec(s, idx) is Some,
    ensures
        widths_ok(d, crate::stack::pull_spec(s, idx)->0),
    decreases s.len(),
{
    if s.len() > 0 && s.last().idx != idx {
        lemma_pull_widths(d, s.drop_last(), idx);
        let t = crate::stack::pull_spec(s.drop_last(), idx)->0;
        assert forall|j: int|
            0 <= j < t.push(s.last()).len() implies d.memory.contains_key(
            (#[trigger] t.push(s.last())[j]).idx,
        ) && t.push(s.last())[j].width as int == crate::compiler::type_width(
            d,
            t.push(s.last())[j].idx,
        ) by {
            if j < t.len() {
                assert(t.push(s.last())[j] == t[j]);
            } else {
                assert(t.push(s.last())[j] == s.last());
            }
        }
    }
}

/// Materialization preserves the per-entry width property.
proof fn lemma_mat_widths<G: FunctionGenerator>(
    d: DslV<G>,
    stack: Seq<StackEntry>,
    inputs: Seq<usize>,
    formals: Seq<crate::functions::FormalParamV>,
    i: int,
    copied: int,
    time: int,
    bytes: Seq<u8>,
)
    requires
        widths_ok(d, stack),
        crate::compiler::mat_rec(d, stack, inputs, formals, i, copied, time, bytes) is Ok,
    ensures
        widths_ok(
            d,
            crate::compiler::mat_rec(d, stack, inputs, formals, i, copied, time, bytes)->Ok_0.0,
        ),
    decreases formals.len() - i,
{
    if 0 <= i && i < formals.len() && i < inputs.len() {
        if formals[i].by_ref {
            lemma_mat_widths(d, stack, inputs, formals, i + 1, copied, time, bytes);
        } else {
            let idx = inputs[i];
            let w = crate::compiler::type_width(d, idx);
            let pos = crate::stack::rel_pos_spec(stack, idx)->0;
            let distance = pos + copied;
            if crate::compiler::last_visit(d.trace, idx) == time && !inputs.skip(i + 1).contains(
                idx,
            ) && !d.output.contains(idx) {
                let st2 = crate::stack::pull_spec(stack, idx)->0;
                lemma_pull_widths(d, stack, idx);
                lemma_mat_widths(
                    d,
                    st2,
                    inputs,
                    formals,
                    i + 1,
                    copied + w,
                    time,
                    bytes + roll_bytes(distance, w),
                );
            } else {
                lemma_mat_widths(
                    d,
                    stack,
                    inputs,
                    formals,
                    i + 1,
                    copied + w,
                    time,
                    bytes + pick_bytes(distance, w),
                );
            }
        }
    }
}

/// Initializing the stack from the input snapshot yields width-correct
/// entries.
proof fn lemma_init_widths<G>(d: DslV<G>, stack: Seq<StackEntry>, i: int, n: int)
    requires
        mem_types_wf(d),
        0 <= i <= n,
        crate::compiler::input_snapshot_rec(d, 0, n) is Ok,
        widths_ok(d, stack),
        crate::compiler::init_stack_rec(
            stack,
            crate::compiler::input_snapshot_rec(d, 0, n)->Ok_0,
            i,
        ) is Ok,
    ensures
        widths_ok(
            d,
            crate::compiler::init_stack_rec(
                stack,
                crate::compiler::input_snapshot_rec(d, 0, n)->Ok_0,
                i,
            )->Ok_0,
        ),
    decreases n - i,
{
    let snap = crate::compiler::input_snapshot_rec(d, 0, n)->Ok_0;
    lemma_snapshot_len(d, 0, n);
    if i < n {
        lemma_snapshot_at(d, 0, n, i);
        let w = snap[i].data.slot_count() as usize;
        let st2 = stack.push(StackEntry { idx: i as usize, width: w });
        lemma_match_width(
            d.memory[i as usize].data,
            d.types[d.memory[i as usize].data_type].element_type,
        );
        assert(widths_ok(d, st2)) by {
            assert forall|j: int|
                0 <= j < st2.len() implies d.memory.contains_key((#[trigger] st2[j]).idx)
                && st2[j].width as int == crate::compiler::type_width(d, st2[j].idx) by {
                if j < stack.len() {
                    assert(st2[j] == stack[j]);
                } else {
                    assert(st2[j] == StackEntry { idx: i as usize, width: w });
                }
            }
        }
        lemma_init_widths(d, st2, i + 1, n);
    }
}

/// Pushing the declared outputs of a call gives each new entry the
/// registered width of the memory entry allocated for it.
proof fn lemma_push_outputs_widths<G>(
    d: DslV<G>,
    stack: Seq<StackEntry>,
    outs: Seq<Seq<char>>,
    alloc_next: int,
    i: int,
)
    requires
        0 <= i <= outs.len(),
        alloc_next >= 0,
        widths_ok(d, stack),
        call_outputs_typed(d, outs, alloc_next - i),
        push_outputs_rec(d, stack, outs, alloc_next, i) is Ok,
    ensures
        widths_ok(d, push_outputs_rec(d, stack, outs, alloc_next, i)->Ok_0.0),
    decreases outs.len() - i,
{
    if i < outs.len() {
        let w = d.types[outs[i]].element_type.width();
        let st_mid = stack.push(StackEntry { idx: alloc_next as usize, width: w });
        assert(d.memory[((alloc_next - i) + i) as usize].data_type == outs[i]);
        assert(widths_ok(d, st_mid)) by {
            assert forall|j: int|
                0 <= j < st_mid.len() implies d.memory.contains_key((#[trigger] st_mid[j]).idx)
                && st_mid[j].width as int == crate::compiler::type_width(d, st_mid[j].idx) by {
                if j < stack.len() {
                    assert(st_mid[j] == stack[j]);
                } else {
                    assert(st_mid[j] == StackEntry { idx: alloc_next as usize, width: w });
                }
            }
        }
        lemma_push_outputs_widths(d, st_mid, outs, alloc_next + 1, i + 1);
    }
}

/// Law: at every point of trace replay of a front-end-accepted DSL, every
/// live entry of the simulated stack carries exactly the registered width
/// of its memory entry's data type — so the model's slot count, which is
/// the sum of the entry widths by the stack's own contract, equals the sum
/// of `width(memory[i].data_type)` over the live indices `i`.
pub proof fn lemma_live_slots_are_registered_widths<G: FunctionGenerator>(d: DslV<G>, k: int)
    requires
        dsl_wf(d),
        0 <= k <= d.trace.len(),
        replay_prefix(d, k) is Ok,
    ensures
        widths_ok(d, replay_prefix(d, k)->Ok_0.stack),
        replay_prefix(d, k)->Ok_0.alloc_next == alloc_counter(d, k),
    decreases k,
{
    if k == 0 {
        assert(widths_ok(d, Seq::<StackEntry>::empty()));
        lemma_init_widths(d, Seq::empty(), 0, input_count(d));
    } else {
        lemma_live_slots_are_registered_widths(d, k - 1);
        lemma_trace_wf_at(d, k - 1);
        let st = replay_prefix(d, k - 1)->Ok_0;
        match d.trace[k - 1] {
            TraceEntryV::AllocatedConstant(idx) => {
                let w = d.types[d.memory[idx].data_type].element_type.width();
                let st2 = st.stack.push(StackEntry { idx, width: w });
                assert(widths_ok(d, st2)) by {
                    assert forall|j: int|
                        0 <= j < st2.len() implies d.memory.contains_key(
                        (#[trigger] st2[j]).idx,
                    ) && st2[j].width as int == crate::compiler::type_width(d, st2[j].idx) by {
                        if j < st.stack.len() {
                            assert(st2[j] == st.stack[j]);
                        } else {
                            assert(st2[j] == StackEntry { idx, width: w });
                        }
                    }
                }
            },
            TraceEntryV::AllocatedHint(idx) => {
                let w = d.types[d.memory[idx].data_type].element_type.width();
                let st2 = st.stack.push(StackEntry { idx, width: w });
                assert(widths_ok(d, st2)) by {
                    assert forall|j: int|
                        0 <= j < st2.len() implies d.memory.contains_key(
                        (#[trigger] st2[j]).idx,
                    ) && st2[j].width as int == crate::compiler::type_width(d, st2[j].idx) by {
                        if j < st.stack.len() {
                            assert(st2[j] == st.stack[j]);
                        } else {
                            assert(st2[j] == StackEntry { idx, width: w });
                        }
                    }
                }
            },
            TraceEntryV::FunctionCall(name, ins) => {
                let m = d.functions[name];
                lemma_mat_widths(d, st.stack, ins, m.input, 0, 0, st.time, Seq::empty());
                let stm = crate::compiler::mat_rec(
                    d,
                    st.stack,
                    ins,
                    m.input,
                    0,
                    0,
                    st.time,
                    Seq::empty(),
                )->Ok_0.0;
                lemma_replay_alloc_nonneg(d, k - 1);
                lemma_push_outputs_shape(d, stm, m.output, st.alloc_next, 0);
                lemma_push_outputs_widths(d, stm, m.output, st.alloc_next, 0);
            },
            TraceEntryV::FunctionCallWithOptions(name, ins, _) => {
                let m = d.functions[name];
                lemma_mat_widths(d, st.stack, ins, m.input, 0, 0, st.time, Seq::empty());
                let stm = crate::compiler::mat_rec(
                    d,
                    st.stack,
                    ins,
                    m.input,
                    0,
                    0,
                    st.time,
                    Seq::empty(),
                )->Ok_0.0;
                lemma_replay_alloc_nonneg(d, k - 1);
                lemma_push_outputs_shape(d, stm, m.output, st.alloc_next, 0);
                lemma_push_outputs_widths(d, stm, m.output, st.alloc_next, 0);
            },
        }
    }
}


/// Whether a trace entry is a function call that lists `idx` among its
/// arguments.
pub open spec fn call_reads(e: TraceEntryV, idx: usize) -> bool {
    match e {
        TraceEntryV::FunctionCall(_, ins) => ins.contains(idx),
        TraceEntryV::FunctionCallWithOptions(_, ins, _) => ins.contains(idx),
        _ => false,
    }
}

/// The number of function calls among the first `k` trace entries: the
/// call time at position `k`.
pub open spec fn calls_before<G>(d: DslV<G>, k: int) -> int
    decreases k,
{
    if k <= 0 {
        0
    } else {
        calls_before(d, k - 1) + (match d.trace[k - 1] {
            TraceEntryV::FunctionCall(_, _) => 1int,
            TraceEntryV::FunctionCallWithOptions(_, _, _) => 1int,
            _ => 0int,
        })
    }
}

/// The call counter never decreases along the trace.
proof fn lemma_calls_before_monotone<G>(d: DslV<G>, a: int, b: int)
    requires
        a <= b,
    ensures
        calls_before(d, a) <= calls_before(d, b),
    decreases b - a,
{
    if a < b {
        lemma_calls_before_monotone(d, a, b - 1);
    }
}

/// A reachable replay state's call time is the number of calls replayed.
proof fn lemma_replay_time<G: FunctionGenerator>(d: DslV<G>, k: int)
    requires
        0 <= k,
        replay_prefix(d, k) is Ok,
    ensures
        replay_prefix(d, k)->Ok_0.time == calls_before(d, k),
    decreases k,
{
    if k > 0 {
        lemma_replay_time(d, k - 1);
    }
}

/// The last-visit fold never falls below its accumulator.
proof fn lemma_lv_ge_acc(trace: Seq<TraceEntryV>, idx: usize, cur: int, acc: int)
    requires
        acc <= cur,
    ensures
        crate::compiler::last_visit_from(trace, idx, cur, acc) >= acc,
    decreases trace.len(),
{
    if trace.len() > 0 {
        match trace.first() {
            TraceEntryV::FunctionCall(_, ins) => {
                lemma_lv_ge_acc(
                    trace.drop_first(),
                    idx,
                    cur + 1,
                    if ins.contains(idx) {
                        cur
                    } else {
                        acc
                    },
                );
            },
            TraceEntryV::FunctionCallWithOptions(_, ins, _) => {
                lemma_lv_ge_acc(
                    trace.drop_first(),
                    idx,
                    cur + 1,
                    if ins.contains(idx) {
                        cur
                    } else {
                        acc
                    },
                );
            },
            _ => {
                lemma_lv_ge_acc(trace.drop_first(), idx, cur, acc);
            },
        }
    }
}

/// A call that lists `idx` bounds the last visit from below by its own
/// call time.
proof fn lemma_lv_call_lb<G>(d: DslV<G>, trace: Seq<TraceEntryV>, off: int, idx: usize, cur: int, acc: int, k: int)
    requires
        acc <= cur,
        0 <= off,
        off + trace.len() == d.trace.len(),
        forall|t: int| 0 <= t < trace.len() ==> trace[t] == d.trace[off + t],
        0 <= k < trace.len(),
        call_reads(trace[k], idx),
    ensures
        crate::compiler::last_visit_from(trace, idx, cur, acc) >= cur + calls_before(d, off + k)
            - calls_before(d, off),
    decreases trace.len(),
{
    assert(trace.first() == d.trace[off]);
    if k == 0 {
        match trace.first() {
            TraceEntryV::FunctionCall(_, ins) => {
                lemma_lv_ge_acc(trace.drop_first(), idx, cur + 1, cur);
            },
            TraceEntryV::FunctionCallWithOptions(_, ins, _) => {
                lemma_lv_ge_acc(trace.drop_first(), idx, cur + 1, cur);
            },
            _ => {},
        }
    } else {
        assert(forall|t: int|
            0 <= t < trace.drop_first().len() ==> #[trigger] trace.drop_first()[t] == d.trace[
            (off + 1) + t]);
        match trace.first() {
            TraceEntryV::FunctionCall(_, ins) => {
                lemma_lv_call_lb(
                    d,
                    trace.drop_first(),
                    off + 1,
                    idx,
                    cur + 1,
                    if ins.contains(idx) {
                        cur
                    } else {
                        acc
                    },
                    k - 1,
                );
            },
            TraceEntryV::FunctionCallWithOptions(_, ins, _) => {
                lemma_lv_call_lb(
                    d,
                    trace.drop_first(),
                    off + 1,
                    idx,
                    cur + 1,
                    if ins.contains(idx) {
                        cur
                    } else {
                        acc
                    },
                    k - 1,
                );
            },
            _ => {
                lemma_lv_call_lb(d, trace.drop_first(), off + 1, idx, cur, acc, k - 1);
            },
        }
    }
}

/// Law: an index whose last reader is the call at position `k` is read by
/// no later call — the roll condition `last_visit == cur_time` admits no
/// later function call listing the index.
pub proof fn lemma_rolled_never_read_again<G: FunctionGenerator>(d: DslV<G>, k: int, k2: int, idx: usize)
    requires
        0 <= k < k2 < d.trace.len(),
        call_name(d.trace[k]) is Some,
        replay_prefix(d, k) is Ok,
        crate::compiler::last_visit(d.trace, idx) == replay_prefix(d, k)->Ok_0.time,
    ensures
        !call_reads(d.trace[k2], idx),
{
    lemma_replay_time(d, k);
    if call_reads(d.trace[k2], idx) {
        assert(forall|t: int| 0 <= t < d.trace.len() ==> (#[trigger] d.trace[t]) == d.trace[0 + t]);
        lemma_lv_call_lb(d, d.trace, 0, idx, 0, -1, k2);
        lemma_calls_before_monotone(d, k + 1, k2);
        assert(calls_before(d, k + 1) == calls_before(d, k) + 1);
    }
}


/// Liveness is the existence of an entry.
pub proof fn lemma_live_exists(s: Seq<StackEntry>, idx: usize)
    ensures
        crate::stack::stack_live(s, idx) <==> exists|j: int|
            0 <= j < s.len() && (#[trigger] s[j]).idx == idx,
    decreases s.len(),
{
    if s.len() > 0 {
        lemma_live_exists(s.drop_last(), idx);
        if crate::stack::stack_live(s, idx) {
            if s.last().idx == idx {
                assert(s[s.len() - 1].idx == idx);
            } else {
                let j = choose|j: int|
                    0 <= j < s.drop_last().len() && (#[trigger] s.drop_last()[j]).idx == idx;
                assert(s[j].idx == idx);
            }
        }
        if exists|j: int| 0 <= j < s.len() && (#[trigger] s[j]).idx == idx {
            let j = choose|j: int| 0 <= j < s.len() && (#[trigger] s[j]).idx == idx;
            if j < s.len() - 1 {
                assert(s.drop_last()[j].idx == idx);
            }
        }
    }
}

/// No two entries share an index.
pub open spec fn stack_unique(s: Seq<StackEntry>) -> bool {
    forall|a: int, b: int|
        0 <= a < b < s.len() ==> (#[trigger] s[a]).idx != (#[trigger] s[b]).idx
}

/// Pulling preserves any per-entry fact: the result's entries all occur in
/// the original.
proof fn lemma_pull_entry_source(s: Seq<StackEntry>, idx: usize, j: int)
    requires
        crate::stack::pull_spec(s, idx) is Some,
        0 <= j < crate::stack::pull_spec(s, idx)->0.len(),
    ensures
        exists|j0: int|
            0 <= j0 < s.len() && (#[trigger] s[j0]) == crate::stack::pull_spec(s, idx)->0[j],
    decreases s.len(),
{
    let t = crate::stack::pull_spec(s, idx)->0;
    if s.last().idx == idx {
        assert(s[j] == t[j]);
    } else {
        let t0 = crate::stack::pull_spec(s.drop_last(), idx)->0;
        if j < t0.len() {
            lemma_pull_entry_source(s.drop_last(), idx, j);
            let j0 = choose|j0: int|
                0 <= j0 < s.drop_last().len() && (#[trigger] s.drop_last()[j0]) == t0[j];
            assert(s[j0] == t[j]);
        } else {
            assert(t[j] == s.last());
            assert(s[s.len() - 1] == t[j]);
        }
    }
}

/// Pulling an index from a stack where it is not live changes nothing of
/// its deadness; more generally, pulling never makes an index live.
proof fn lemma_pull_preserves_dead(s: Seq<StackEntry>, pulled: usize, idx: usize)
    requires
        crate::stack::pull_spec(s, pulled) is Some,
        !crate::stack::stack_live(s, idx),
    ensures
        !crate::stack::stack_live(crate::stack::pull_spec(s, pulled)->0, idx),
{
    lemma_live_exists(s, idx);
    lemma_live_exists(crate::stack::pull_spec(s, pulled)->0, idx);
    let t = crate::stack::pull_spec(s, pulled)->0;
    if crate::stack::stack_live(t, idx) {
        let j = choose|j: int| 0 <= j < t.len() && (#[trigger] t[j]).idx == idx;
        lemma_pull_entry_source(s, pulled, j);
    }
}

/// Materialization never makes an index live.
proof fn lemma_mat_preserves_dead<G: FunctionGenerator>(
    d: DslV<G>,
    stack: Seq<StackEntry>,
    inputs: Seq<usize>,
    formals: Seq<crate::functions::FormalParamV>,
    i: int,
    copied: int,
    time: int,
    bytes: Seq<u8>,
    idx: usize,
)
    requires
        !crate::stack::stack_live(stack, idx),
        crate::compiler::mat_rec(d, stack, inputs, formals, i, copied, time, bytes) is Ok,
    ensures
        !crate::stack::stack_live(
            crate::compiler::mat_rec(d, stack, inputs, formals, i, copied, time, bytes)->Ok_0.0,
            idx,
        ),
    decreases formals.len() - i,
{
    if 0 <= i && i < formals.len() && i < inputs.len() {
        if formals[i].by_ref {
            lemma_mat_preserves_dead(d, stack, inputs, formals, i + 1, copied, time, bytes, idx);
        } else {
            let a = inputs[i];
            let w = crate::compiler::type_width(d, a);
            let pos = crate::stack::rel_pos_spec(stack, a)->0;
            let distance = pos + copied;
            if crate::compiler::last_visit(d.trace, a) == time && !inputs.skip(i + 1).contains(a)
                && !d.output.contains(a) {
                let st2 = crate::stack::pull_spec(stack, a)->0;
                lemma_pull_preserves_dead(stack, a, idx);
                lemma_mat_preserves_dead(
                    d,
                    st2,
                    inputs,
                    formals,
                    i + 1,
                    copied + w,
                    time,
                    bytes + roll_bytes(distance, w),
                    idx,
                );
            } else {
                lemma_mat_preserves_dead(
                    d,
                    stack,
                    inputs,
                    formals,
                    i + 1,
                    copied + w,
                    time,
                    bytes + pick_bytes(distance, w),
                    idx,
                );
            }
        }
    }
}

/// Pushing the declared outputs at fresh indices never makes a lower index
/// live.
proof fn lemma_push_outputs_preserves_dead<G>(
    d: DslV<G>,
    stack: Seq<StackEntry>,
    outs: Seq<Seq<char>>,
    alloc_next: int,
    i: int,
    idx: usize,
)
    requires
        0 <= i <= outs.len(),
        (idx as int) < alloc_next,
        !crate::stack::stack_live(stack, idx),
        push_outputs_rec(d, stack, outs, alloc_next, i) is Ok,
    ensures
        !crate::stack::stack_live(push_outputs_rec(d, stack, outs, alloc_next, i)->Ok_0.0, idx),
    decreases outs.len() - i,
{
    if i < outs.len() {
        let w = d.types[outs[i]].element_type.width();
        let st_mid = stack.push(StackEntry { idx: alloc_next as usize, width: w });
        assert(st_mid.drop_last() =~= stack);
        lemma_push_outputs_preserves_dead(d, st_mid, outs, alloc_next + 1, i + 1, idx);
    }
}

/// The allocation counter never decreases along the trace.
proof fn lemma_alloc_counter_monotone<G>(d: DslV<G>, a: int, b: int)
    requires
        a <= b,
    ensures
        alloc_counter(d, a) <= alloc_counter(d, b),
    decreases b - a,
{
    if a < b {
        lemma_alloc_counter_monotone(d, a, b - 1);
    }
}

/// Law: once an index is off the simulated stack, it never returns — at
/// every later point of trace replay it is still not live and the model
/// holds no entry for it.  Since a roll pulls a live index, an index is
/// rolled at most once.
pub proof fn lemma_dead_index_stays_dead<G: FunctionGenerator>(d: DslV<G>, k: int, k2: int, idx: usize)
    requires
        dsl_wf(d),
        0 <= k <= k2 <= d.trace.len(),
        replay_prefix(d, k2) is Ok,
        !crate::stack::stack_live(replay_prefix(d, k)->Ok_0.stack, idx),
        (idx as int) < alloc_counter(d, k),
    ensures
        !crate::stack::stack_live(replay_prefix(d, k2)->Ok_0.stack, idx),
        forall|j: int|
            0 <= j < replay_prefix(d, k2)->Ok_0.stack.len() ==> (#[trigger] replay_prefix(
                d,
                k2,
            )->Ok_0.stack[j]).idx != idx,
    decreases k2 - k,
{
    lemma_live_exists(replay_prefix(d, k2)->Ok_0.stack, idx);
    if k2 > k {
        lemma_dead_index_stays_dead(d, k, k2 - 1, idx);
        lemma_alloc_counter_monotone(d, k, k2 - 1);
        lemma_trace_wf_at(d, k2 - 1);
        lemma_live_slots_are_registered_widths(d, k2 - 1);
        let st = replay_prefix(d, k2 - 1)->Ok_0;
        match d.trace[k2 - 1] {
            TraceEntryV::AllocatedConstant(c) => {
                let w = d.types[d.memory[c].data_type].element_type.width();
                let st2 = st.stack.push(StackEntry { idx: c, width: w });
                assert(st2.drop_last() =~= st.stack);
            },
            TraceEntryV::AllocatedHint(c) => {
                let w = d.types[d.memory[c].data_type].element_type.width();
                let st2 = st.stack.push(StackEntry { idx: c, width: w });
                assert(st2.drop_last() =~= st.stack);
            },
            TraceEntryV::FunctionCall(name, ins) => {
                let m = d.functions[name];
                lemma_mat_preserves_dead(
                    d,
                    st.stack,
                    ins,
                    m.input,
                    0,
                    0,
                    st.time,
                    Seq::empty(),
                    idx,
                );
                let stm = crate::compiler::mat_rec(
                    d,
                    st.stack,
                    ins,
                    m.input,
                    0,
                    0,
                    st.time,
                    Seq::empty(),
                )->Ok_0.0;
                lemma_push_outputs_preserves_dead(d, stm, m.output, st.alloc_next, 0, idx);
            },
            TraceEntryV::FunctionCallWithOptions(name, ins, _) => {
                let m = d.functions[name];
                lemma_mat_preserves_dead(
                    d,
                    st.stack,
                    ins,
                    m.input,
                    0,
                    0,
                    st.time,
                    Seq::empty(),
                    idx,
                );
                let stm = crate::compiler::mat_rec(
                    d,
                    st.stack,
                    ins,
                    m.input,
                    0,
                    0,
                    st.time,
                    Seq::empty(),
                )->Ok_0.0;
                lemma_push_outputs_preserves_dead(d, stm, m.output, st.alloc_next, 0, idx);
            },
        }
    }
}


/// The number of function calls in a trace fragment.
pub open spec fn seq_calls(tr: Seq<TraceEntryV>) -> int
    decreases tr.len(),
{
    if tr.len() == 0 {
        0
    } else {
        (match tr.first() {
            TraceEntryV::FunctionCall(_, _) => 1int,
            TraceEntryV::FunctionCallWithOptions(_, _, _) => 1int,
            _ => 0int,
        }) + seq_calls(tr.drop_first())
    }
}

/// Appending one entry adds its call count.
proof fn lemma_seq_calls_push(tr: Seq<TraceEntryV>, e: TraceEntryV)
    ensures
        seq_calls(tr.push(e)) == seq_calls(tr) + (match e {
            TraceEntryV::FunctionCall(_, _) => 1int,
            TraceEntryV::FunctionCallWithOptions(_, _, _) => 1int,
            _ => 0int,
        }),
    decreases tr.len(),
{
    if tr.len() == 0 {
        assert(tr.push(e).drop_first() =~= tr);
    } else {
        assert(tr.push(e).first() == tr.first());
        assert(tr.push(e).drop_first() =~= tr.drop_first().push(e));
        lemma_seq_calls_push(tr.drop_first(), e);
    }
}

/// The fragment call count agrees with the prefix call counter.
proof fn lemma_seq_calls_eq<G>(d: DslV<G>, k: int)
    requires
        0 <= k <= d.trace.len(),
    ensures
        seq_calls(d.trace.take(k)) == calls_before(d, k),
    decreases k,
{
    if k == 0 {
        assert(d.trace.take(0) =~= Seq::<TraceEntryV>::empty());
    } else {
        lemma_seq_calls_eq(d, k - 1);
        assert(d.trace.take(k) =~= d.trace.take(k - 1).push(d.trace[k - 1]));
        lemma_seq_calls_push(d.trace.take(k - 1), d.trace[k - 1]);
    }
}

/// A trace fragment none of whose calls reads `idx` leaves the last-visit
/// accumulator unchanged.
proof fn lemma_lv_no_reader(tr: Seq<TraceEntryV>, idx: usize, cur: int, acc: int)
    requires
        forall|t: int| 0 <= t < tr.len() ==> !call_reads(#[trigger] tr[t], idx),
    ensures
        crate::compiler::last_visit_from(tr, idx, cur, acc) == acc,
    decreases tr.len(),
{
    if tr.len() > 0 {
        assert(!call_reads(tr[0], idx));
        assert(forall|t: int|
            0 <= t < tr.drop_first().len() ==> !call_reads(#[trigger] tr.drop_first()[t], idx));
        match tr.first() {
            TraceEntryV::FunctionCall(_, ins) => {
                lemma_lv_no_reader(tr.drop_first(), idx, cur + 1, acc);
            },
            TraceEntryV::FunctionCallWithOptions(_, ins, _) => {
                lemma_lv_no_reader(tr.drop_first(), idx, cur + 1, acc);
            },
            _ => {
                lemma_lv_no_reader(tr.drop_first(), idx, cur, acc);
            },
        }
    }
}

/// The last-visit fold decomposes over concatenation.
proof fn lemma_lv_concat(a: Seq<TraceEntryV>, b: Seq<TraceEntryV>, idx: usize, cur: int, acc: int)
    ensures
        crate::compiler::last_visit_from(a + b, idx, cur, acc)
            == crate::compiler::last_visit_from(
            b,
            idx,
            cur + seq_calls(a),
            crate::compiler::last_visit_from(a, idx, cur, acc),
        ),
    decreases a.len(),
{
    if a.len() == 0 {
        assert(a + b =~= b);
    } else {
        assert((a + b).first() == a.first());
        assert((a + b).drop_first() =~= a.drop_first() + b);
        match a.first() {
            TraceEntryV::FunctionCall(_, ins) => {
                lemma_lv_concat(
                    a.drop_first(),
                    b,
                    idx,
                    cur + 1,
                    if ins.contains(idx) {
                        cur
                    } else {
                        acc
                    },
                );
            },
            TraceEntryV::FunctionCallWithOptions(_, ins, _) => {
                lemma_lv_concat(
                    a.drop_first(),
                    b,
                    idx,
                    cur + 1,
                    if ins.contains(idx) {
                        cur
                    } else {
                        acc
                    },
                );
            },
            _ => {
                lemma_lv_concat(a.drop_first(), b, idx, cur, acc);
            },
        }
    }
}

/// Whether the DSLs agree on everything materialization reads, apart from
/// the one fresh index `c`.
pub open spec fn agree_off<G>(d: DslV<G>, d2: DslV<G>, c: usize) -> bool {
    &&& d2.types == d.types
    &&& d2.functions == d.functions
    &&& d2.output == d.output
    &&& forall|a: usize|
        a != c ==> ((#[trigger] d2.memory.contains_key(a)) <==> d.memory.contains_key(a))
    &&& forall|a: usize|
        a != c && d.memory.contains_key(a) ==> (#[trigger] d2.memory[a]) == d.memory[a]
    &&& forall|a: usize|
        a != c ==> #[trigger] crate::compiler::last_visit(d2.trace, a)
            == crate::compiler::last_visit(d.trace, a)
}

/// Materialization is the same in two DSLs that agree off the fresh index,
/// when no argument is that index.
proof fn lemma_mat_congruent<G: FunctionGenerator>(
    d: DslV<G>,
    d2: DslV<G>,
    c: usize,
    stack: Seq<StackEntry>,
    inputs: Seq<usize>,
    formals: Seq<crate::functions::FormalParamV>,
    i: int,
    copied: int,
    time: int,
    bytes: Seq<u8>,
)
    requires
        agree_off(d, d2, c),
        !inputs.contains(c),
    ensures
        crate::compiler::mat_rec(d2, stack, inputs, formals, i, copied, time, bytes)
            == crate::compiler::mat_rec(d, stack, inputs, formals, i, copied, time, bytes),
    decreases formals.len() - i,
{
    if 0 <= i && i < formals.len() && i < inputs.len() {
        assert(inputs[i] != c);
        if formals[i].by_ref {
            lemma_mat_congruent(d, d2, c, stack, inputs, formals, i + 1, copied, time, bytes);
        } else {
            let idx = inputs[i];
            if d.memory.contains_key(idx) && d.types.contains_key(d.memory[idx].data_type) {
                let w = crate::compiler::type_width(d, idx);
                match crate::stack::rel_pos_spec(stack, idx) {
                    Some(pos) => {
                        let distance = pos + copied;
                        if pos + copied <= usize::MAX && pos + copied <= i64::MAX && copied + w
                            <= usize::MAX {
                            if crate::compiler::last_visit(d.trace, idx) == time && !inputs.skip(
                                i + 1,
                            ).contains(idx) && !d.output.contains(idx) {
                                match crate::stack::pull_spec(stack, idx) {
                                    Some(st2) => {
                                        lemma_mat_congruent(
                                            d,
                                            d2,
                                            c,
                                            st2,
                                            inputs,
                                            formals,
                                            i + 1,
                                            copied + w,
                                            time,
                                            bytes + roll_bytes(distance, w),
                                        );
                                    },
                                    None => {},
                                }
                            } else {
                                lemma_mat_congruent(
                                    d,
                                    d2,
                                    c,
                                    stack,
                                    inputs,
                                    formals,
                                    i + 1,
                                    copied + w,
                                    time,
                                    bytes + pick_bytes(distance, w),
                                );
                            }
                        }
                    },
                    None => {},
                }
            }
        }
    }
}

/// Output pushing is the same in two DSLs with the same type registry.
proof fn lemma_push_outputs_congruent<G: FunctionGenerator>(
    d: DslV<G>,
    d2: DslV<G>,
    stack: Seq<StackEntry>,
    outs: Seq<Seq<char>>,
    alloc_next: int,
    i: int,
)
    requires
        d2.types == d.types,
    ensures
        push_outputs_rec(d2, stack, outs, alloc_next, i) == push_outputs_rec(
            d,
            stack,
            outs,
            alloc_next,
            i,
        ),
    decreases outs.len() - i,
{
    if 0 <= i && i < outs.len() {
        if d.types.contains_key(outs[i]) {
            let w = d.types[outs[i]].element_type.width();
            match crate::stack::push_spec(stack, alloc_next as usize, w) {
                Ok(st2) => {
                    if alloc_next + 1 <= usize::MAX {
                        lemma_push_outputs_congruent(d, d2, st2, outs, alloc_next + 1, i + 1);
                    }
                },
                Err(_) => {},
            }
        }
    }
}

/// Whether a trace entry neither allocates nor reads the index.
pub open spec fn entry_avoids(e: TraceEntryV, c: usize) -> bool {
    match e {
        TraceEntryV::AllocatedConstant(i) => i != c,
        TraceEntryV::AllocatedHint(i) => i != c,
        TraceEntryV::FunctionCall(_, ins) => !ins.contains(c),
        TraceEntryV::FunctionCallWithOptions(_, ins, _) => !ins.contains(c),
    }
}

/// One replay step is the same in two DSLs that agree off the fresh index,
/// on an entry that avoids it.
proof fn lemma_step_congruent<G: FunctionGenerator>(
    d: DslV<G>,
    d2: DslV<G>,
    c: usize,
    st: crate::compiler::ReplayState,
    e: TraceEntryV,
)
    requires
        agree_off(d, d2, c),
        entry_avoids(e, c),
    ensures
        replay_step(d2, st, e) == replay_step(d, st, e),
{
    match e {
        TraceEntryV::FunctionCall(name, ins) => {
            if d.functions.contains_key(name) {
                let m = d.functions[name];
                lemma_mat_congruent(
                    d,
                    d2,
                    c,
                    st.stack,
                    ins,
                    m.input,
                    0,
                    0,
                    st.time,
                    Seq::empty(),
                );
                match crate::compiler::mat_rec(d, st.stack, ins, m.input, 0, 0, st.time, Seq::empty()) {
                    Ok((st2, _)) => {
                        lemma_push_outputs_congruent(d, d2, st2, m.output, st.alloc_next, 0);
                    },
                    Err(_) => {},
                }
            }
        },
        TraceEntryV::FunctionCallWithOptions(name, ins, _) => {
            if d.functions.contains_key(name) {
                let m = d.functions[name];
                if m.accepts_options {
                    lemma_mat_congruent(
                        d,
                        d2,
                        c,
                        st.stack,
                        ins,
                        m.input,
                        0,
                        0,
                        st.time,
                        Seq::empty(),
                    );
                    match crate::compiler::mat_rec(
                        d,
                        st.stack,
                        ins,
                        m.input,
                        0,
                        0,
                        st.time,
                        Seq::empty(),
                    ) {
                        Ok((st2, _)) => {
                            lemma_push_outputs_congruent(d, d2, st2, m.output, st.alloc_next, 0);
                        },
                        Err(_) => {},
                    }
                }
            }
        },
        _ => {},
    }
}

/// The whole replay prefix is the same in two DSLs that agree off the
/// fresh index, when the shared trace prefix avoids it and the inputs sit
/// below it.
proof fn lemma_replay_congruent<G: FunctionGenerator>(d: DslV<G>, d2: DslV<G>, c: usize, k: int)
    requires
        agree_off(d, d2, c),
        d2.num_inputs == d.num_inputs,
        input_count(d) <= c as int,
        0 <= k <= d.trace.len(),
        forall|t: int| 0 <= t < k ==> (#[trigger] d2.trace[t]) == d.trace[t],
        forall|t: int| 0 <= t < k ==> entry_avoids(#[trigger] d.trace[t], c),
        k <= d2.trace.len(),
    ensures
        replay_prefix(d2, k) == replay_prefix(d, k),
    decreases k,
{
    if k == 0 {
        lemma_snapshot_congruent(d, d2, c, 0, input_count(d));
        match crate::compiler::input_snapshot_rec(d, 0, input_count(d)) {
            Ok(snap) => {
                assert(crate::compiler::init_stack_rec(Seq::empty(), snap, 0)
                    == crate::compiler::init_stack_rec(Seq::empty(), snap, 0));
            },
            Err(_) => {},
        }
    } else {
        lemma_replay_congruent(d, d2, c, k - 1);
        match replay_prefix(d, k - 1) {
            Ok(st) => {
                lemma_step_congruent(d, d2, c, st, d.trace[k - 1]);
            },
            Err(_) => {},
        }
    }
}

/// The input snapshot is the same in two DSLs whose memories agree below
/// the fresh index.
proof fn lemma_snapshot_congruent<G: FunctionGenerator>(d: DslV<G>, d2: DslV<G>, c: usize, i: int, n: int)
    requires
        agree_off(d, d2, c),
        n <= c as int,
        0 <= i,
    ensures
        crate::compiler::input_snapshot_rec(d2, i, n) == crate::compiler::input_snapshot_rec(
            d,
            i,
            n,
        ),
    decreases n - i,
{
    if i < n {
        assert((i as usize) != c);
        lemma_snapshot_congruent(d, d2, c, i + 1, n);
    }
}


/// Law: appending a no-op pair — a fresh constant followed by a call that
/// consumes it and produces nothing — leaves the replayed stack unchanged
/// and inserts only the constant's push and the call's generator bytes, so
/// the drainage, cleanup and restore bytes that place the declared outputs
/// are byte-identical between the two compilations.
pub proof fn lemma_noop_append_keeps_output_bytes<G: FunctionGenerator>(
    d: DslV<G>,
    d2: DslV<G>,
    c: usize,
    entry: MemoryEntryV,
    fname: Seq<char>,
)
    requires
        dsl_wf(d),
        d2.types == d.types,
        d2.functions == d.functions,
        d2.output == d.output,
        d2.num_inputs == d.num_inputs,
        d2.hint == d.hint,
        d2.memory == d.memory.insert(c, entry),
        d2.trace == d.trace.push(TraceEntryV::AllocatedConstant(c)).push(
            TraceEntryV::FunctionCall(fname, seq![c]),
        ),
        input_count(d) <= c as int,
        alloc_counter(d, d.trace.len() as int) <= c as int,
        c < usize::MAX,
        forall|t: int| 0 <= t < d.trace.len() ==> !call_reads(#[trigger] d.trace[t], c),
        !d.output.contains(c),
        d.functions.contains_key(fname),
        d.functions[fname].input.len() == 1,
        !d.functions[fname].input[0].by_ref,
        d.functions[fname].input[0].data_type == entry.data_type,
        d.functions[fname].output.len() == 0,
        !d.functions[fname].accepts_options,
        d.functions[fname].generator.script_spec(Seq::empty()) is Some,
        d.types.contains_key(entry.data_type),
        element_pushable(entry.data),
        d.types[entry.data_type].element_type.width() <= i64::MAX,
        replay_prefix(d, d.trace.len() as int) is Ok,
        crate::stack::push_spec(
            replay_prefix(d, d.trace.len() as int)->Ok_0.stack,
            c,
            d.types[entry.data_type].element_type.width(),
        ) is Ok,
    ensures
        ({
            let st = replay_prefix(d, d.trace.len() as int)->Ok_0;
            let gb = d.functions[fname].generator.script_spec(Seq::empty())->0;
            replay_prefix(d2, d2.trace.len() as int) == Ok::<ReplayState, CompileErrV>(
                ReplayState {
                    stack: st.stack,
                    script: st.script + element_push_bytes_of(entry.data) + gb,
                    alloc_next: st.alloc_next + 1,
                    time: st.time + 1,
                },
            )
        }),
        ({
            let st = replay_prefix(d, d.trace.len() as int)->Ok_0;
            let gb = d.functions[fname].generator.script_spec(Seq::empty())->0;
            let dr = drain_rec(st.stack, d.output.reverse(), 0, Seq::empty(), 0, Seq::empty());
            compile_spec(d) is Ok ==> compile_spec(d2) is Ok && compile_spec(d)->Ok_0.script
                == st.script + (dr->Ok_0.1 + crate::compiler::cleanup_bytes(
                crate::stack::slot_sum(dr->Ok_0.0),
                dr->Ok_0.2,
            )) && compile_spec(d2)->Ok_0.script == st.script + element_push_bytes_of(entry.data)
                + gb + (dr->Ok_0.1 + crate::compiler::cleanup_bytes(
                crate::stack::slot_sum(dr->Ok_0.0),
                dr->Ok_0.2,
            ))
        }),
{
    let len = d.trace.len() as int;
    let st = replay_prefix(d, len)->Ok_0;
    let suffix = seq![
        TraceEntryV::AllocatedConstant(c),
        TraceEntryV::FunctionCall(fname, seq![c]),
    ];
    assert(d2.trace =~= d.trace + suffix);
    assert(seq![c][0] == c);
    assert(seq![c].contains(c));
    assert(agree_off(d, d2, c)) by {
        assert forall|a: usize|
            a != c implies #[trigger] crate::compiler::last_visit(d2.trace, a)
            == crate::compiler::last_visit(d.trace, a) by {
            lemma_lv_concat(d.trace, suffix, a, 0, -1);
            assert(!seq![c].contains(a)) by {
                if seq![c].contains(a) {
                    let j = choose|j: int| 0 <= j < seq![c].len() && seq![c][j] == a;
                    assert(seq![c][0] == c);
                }
            }
            assert(forall|t: int| 0 <= t < suffix.len() ==> !call_reads(#[trigger] suffix[t], a));
            lemma_lv_no_reader(
                suffix,
                a,
                seq_calls(d.trace),
                crate::compiler::last_visit(d.trace, a),
            );
            assert(crate::compiler::last_visit_from(d.trace + suffix, a, 0, -1)
                == crate::compiler::last_visit(d.trace, a));
        }
    }
    assert forall|t: int| 0 <= t < len implies entry_avoids(#[trigger] d.trace[t], c) by {
        lemma_trace_wf_at(d, t);
        lemma_alloc_counter_monotone(d, t + 1, len);
        match d.trace[t] {
            TraceEntryV::AllocatedConstant(i) => {
                assert(alloc_counter(d, t + 1) == alloc_counter(d, t) + 1);
            },
            TraceEntryV::AllocatedHint(i) => {
                assert(alloc_counter(d, t + 1) == alloc_counter(d, t) + 1);
            },
            _ => {},
        }
    }
    assert(forall|t: int| 0 <= t < len ==> (#[trigger] d2.trace[t]) == d.trace[t]);
    lemma_replay_congruent(d, d2, c, len);
    assert(replay_prefix(d2, len) == Ok::<ReplayState, CompileErrV>(st));
    let w = d.types[entry.data_type].element_type.width();
    lemma_live_slots_are_registered_widths(d, len);
    assert(st.alloc_next == alloc_counter(d, len));
    assert(d2.trace[len] == TraceEntryV::AllocatedConstant(c));
    assert(d2.memory.contains_key(c) && d2.memory[c] == entry);
    let pushed = crate::stack::push_spec(st.stack, c, w)->Ok_0;
    assert(pushed == st.stack.push(StackEntry { idx: c, width: w }));
    let st_c = ReplayState {
        stack: pushed,
        script: st.script + element_push_bytes_of(entry.data),
        alloc_next: st.alloc_next + 1,
        time: st.time,
    };
    assert(replay_step(d2, st, d2.trace[len]) == Ok::<ReplayState, CompileErrV>(st_c));
    assert(replay_prefix(d2, len + 1) == Ok::<ReplayState, CompileErrV>(st_c));
    // The appended call: its single argument is the fresh constant, which
    // dies here; the roll of a block already at the top emits nothing.
    let m = d.functions[fname];
    assert(d2.trace[len + 1] == TraceEntryV::FunctionCall(fname, seq![c]));
    lemma_replay_time(d, len);
    assert(d.trace.take(len) =~= d.trace);
    lemma_seq_calls_eq(d, len);
    lemma_lv_no_reader(d.trace, c, 0, -1);
    lemma_lv_concat(d.trace, suffix, c, 0, -1);
    let tm = st.time;
    assert(crate::compiler::last_visit(d2.trace, c) == tm) by {
        let s1 = suffix.drop_first();
        assert(s1 =~= seq![TraceEntryV::FunctionCall(fname, seq![c])]);
        let s2 = s1.drop_first();
        assert(s2 =~= Seq::<TraceEntryV>::empty());
        assert(crate::compiler::last_visit_from(suffix, c, tm, -1)
            == crate::compiler::last_visit_from(s1, c, tm, -1));
        assert(crate::compiler::last_visit_from(s1, c, tm, -1)
            == crate::compiler::last_visit_from(s2, c, tm + 1, tm));
    }
    let pos: int = if w == 0 { 0int } else { w - 1 };
    assert(crate::stack::rel_pos_spec(pushed, c) == Some(pos));
    assert(crate::stack::pull_spec(pushed, c) == Some(st.stack)) by {
        assert(pushed.drop_last() =~= st.stack);
    }
    assert(!seq![c].skip(1).contains(c)) by {
        assert(seq![c].skip(1) =~= Seq::<usize>::empty());
    }
    let rb = roll_bytes(pos, w as int);
    assert(rb =~= Seq::<u8>::empty()) by {
        if w == 0 {
            assert(roll_bytes(0, 0) == repeat_bytes(
                crate::encode::int_push_bytes_of(0) + seq![crate::encode::OP_ROLL],
                0,
            ));
        }
    }
    assert(crate::compiler::mat_rec(d2, st.stack, seq![c], m.input, 1, 0 + (w as int), tm, Seq::empty() + rb)
        == Ok::<(Seq<StackEntry>, Seq<u8>), CompileErrV>((st.stack, Seq::empty() + rb)));
    assert(crate::compiler::mat_rec(d2, pushed, seq![c], m.input, 0, 0, tm, Seq::empty())
        == Ok::<(Seq<StackEntry>, Seq<u8>), CompileErrV>((st.stack, Seq::empty() + rb)));
    assert(Seq::<u8>::empty() + rb =~= Seq::<u8>::empty());
    assert(crate::compiler::ref_positions_rec(st.stack, seq![c], m.input, 1) == Ok::<
        Seq<usize>,
        CompileErrV,
    >(Seq::<usize>::empty()));
    assert(crate::compiler::ref_positions_rec(st.stack, seq![c], m.input, 0) == Ok::<
        Seq<usize>,
        CompileErrV,
    >(Seq::<usize>::empty()));
    let gb = m.generator.script_spec(Seq::empty())->0;
    assert(push_outputs_rec(d2, st.stack, m.output, st_c.alloc_next, 0) == Ok::<
        (Seq<StackEntry>, int),
        CompileErrV,
    >((st.stack, st_c.alloc_next)));
    let st2 = ReplayState {
        stack: st.stack,
        script: st.script + element_push_bytes_of(entry.data) + gb,
        alloc_next: st.alloc_next + 1,
        time: st.time + 1,
    };
    assert(replay_step(d2, st_c, d2.trace[len + 1]) == Ok::<ReplayState, CompileErrV>(st2)) by {
        assert(st_c.script + (Seq::<u8>::empty() + rb) + gb =~= st.script
            + element_push_bytes_of(entry.data) + gb);
    }
    assert(d2.trace.len() == len + 2);
    assert(replay_prefix(d2, len + 2) == Ok::<ReplayState, CompileErrV>(st2));
    // The compiled scripts share the drainage-and-cleanup suffix.
    lemma_snapshot_congruent(d, d2, c, 0, input_count(d));
    if compile_spec(d) is Ok {
        let dr = drain_rec(st.stack, d.output.reverse(), 0, Seq::empty(), 0, Seq::empty());
        assert(compile_spec(d)->Ok_0.script == st.script + dr->Ok_0.1
            + crate::compiler::cleanup_bytes(crate::stack::slot_sum(dr->Ok_0.0), dr->Ok_0.2));
        assert(compile_spec(d)->Ok_0.script == st.script + (dr->Ok_0.1
            + crate::compiler::cleanup_bytes(crate::stack::slot_sum(dr->Ok_0.0), dr->Ok_0.2))) by {
            assert(st.script + dr->Ok_0.1 + crate::compiler::cleanup_bytes(
                crate::stack::slot_sum(dr->Ok_0.0),
                dr->Ok_0.2,
            ) =~= st.script + (dr->Ok_0.1 + crate::compiler::cleanup_bytes(
                crate::stack::slot_sum(dr->Ok_0.0),
                dr->Ok_0.2,
            )));
        }
        assert(compile_spec(d2)->Ok_0.script == st2.script + dr->Ok_0.1
            + crate::compiler::cleanup_bytes(crate::stack::slot_sum(dr->Ok_0.0), dr->Ok_0.2));
        assert(compile_spec(d2)->Ok_0.script == st.script + element_push_bytes_of(entry.data) + gb
            + (dr->Ok_0.1 + crate::compiler::cleanup_bytes(
            crate::stack::slot_sum(dr->Ok_0.0),
            dr->Ok_0.2,
        ))) by {
            assert(st2.script + dr->Ok_0.1 + crate::compiler::cleanup_bytes(
                crate::stack::slot_sum(dr->Ok_0.0),
                dr->Ok_0.2,
            ) =~= st.script + element_push_bytes_of(entry.data) + gb + (dr->Ok_0.1
                + crate::compiler::cleanup_bytes(
                crate::stack::slot_sum(dr->Ok_0.0),
                dr->Ok_0.2,
            )));
        }
    }
}


/// Pulling keeps the remaining entries unique.
proof fn lemma_pull_unique(s: Seq<StackEntry>, idx: usize)
    requires
        stack_unique(s),
        crate::stack::pull_spec(s, idx) is Some,
    ensures
        stack_unique(crate::stack::pull_spec(s, idx)->0),
    decreases s.len(),
{
    let t = crate::stack::pull_spec(s, idx)->0;
    if s.last().idx == idx {
        assert forall|a: int, b: int|
            0 <= a < b < t.len() implies (#[trigger] t[a]).idx != (#[trigger] t[b]).idx by {
            assert(t[a] == s[a] && t[b] == s[b]);
        }
    } else {
        assert(stack_unique(s.drop_last())) by {
            assert forall|a: int, b: int|
                0 <= a < b < s.drop_last().len() implies (#[trigger] s.drop_last()[a]).idx != (
            #[trigger] s.drop_last()[b]).idx by {
                assert(s.drop_last()[a] == s[a] && s.drop_last()[b] == s[b]);
            }
        }
        lemma_pull_unique(s.drop_last(), idx);
        let t0 = crate::stack::pull_spec(s.drop_last(), idx)->0;
        assert forall|a: int, b: int|
            0 <= a < b < t.len() implies (#[trigger] t[a]).idx != (#[trigger] t[b]).idx by {
            if b < t0.len() {
                assert(t[a] == t0[a] && t[b] == t0[b]);
            } else {
                assert(t[b] == s.last());
                assert(t[a] == t0[a]);
                lemma_pull_entry_source(s.drop_last(), idx, a);
                let j0 = choose|j0: int|
                    0 <= j0 < s.drop_last().len() && (#[trigger] s.drop_last()[j0]) == t0[a];
                assert(s[j0] == t0[a]);
                assert(s[j0].idx != s[s.len() - 1].idx);
            }
        }
    }
}

/// A push of a non-live index keeps the entries unique.
proof fn lemma_push_unique(s: Seq<StackEntry>, e: StackEntry)
    requires
        stack_unique(s),
        !crate::stack::stack_live(s, e.idx),
    ensures
        stack_unique(s.push(e)),
{
    lemma_live_exists(s, e.idx);
    assert forall|a: int, b: int|
        0 <= a < b < s.push(e).len() implies (#[trigger] s.push(e)[a]).idx != (
    #[trigger] s.push(e)[b]).idx by {
        if b < s.len() {
            assert(s.push(e)[a] == s[a] && s.push(e)[b] == s[b]);
        } else {
            assert(s.push(e)[b] == e);
            assert(s.push(e)[a] == s[a]);
        }
    }
}

/// Materialization keeps the entries unique.
proof fn lemma_mat_unique<G: FunctionGenerator>(
    d: DslV<G>,
    stack: Seq<StackEntry>,
    inputs: Seq<usize>,
    formals: Seq<crate::functions::FormalParamV>,
    i: int,
    copied: int,
    time: int,
    bytes: Seq<u8>,
)
    requires
        stack_unique(stack),
        crate::compiler::mat_rec(d, stack, inputs, formals, i, copied, time, bytes) is Ok,
    ensures
        stack_unique(
            crate::compiler::mat_rec(d, stack, inputs, formals, i, copied, time, bytes)->Ok_0.0,
        ),
    decreases formals.len() - i,
{
    if 0 <= i && i < formals.len() && i < inputs.len() {
        if formals[i].by_ref {
            lemma_mat_unique(d, stack, inputs, formals, i + 1, copied, time, bytes);
        } else {
            let idx = inputs[i];
            let w = crate::compiler::type_width(d, idx);
            let pos = crate::stack::rel_pos_spec(stack, idx)->0;
            let distance = pos + copied;
            if crate::compiler::last_visit(d.trace, idx) == time && !inputs.skip(i + 1).contains(
                idx,
            ) && !d.output.contains(idx) {
                let st2 = crate::stack::pull_spec(stack, idx)->0;
                lemma_pull_unique(stack, idx);
                lemma_mat_unique(
                    d,
                    st2,
                    inputs,
                    formals,
                    i + 1,
                    copied + w,
                    time,
                    bytes + roll_bytes(distance, w),
                );
            } else {
                lemma_mat_unique(
                    d,
                    stack,
                    inputs,
                    formals,
                    i + 1,
                    copied + w,
                    time,
                    bytes + pick_bytes(distance, w),
                );
            }
        }
    }
}

/// Pushing the declared outputs keeps the entries unique.
proof fn lemma_push_outputs_unique<G>(
    d: DslV<G>,
    stack: Seq<StackEntry>,
    outs: Seq<Seq<char>>,
    alloc_next: int,
    i: int,
)
    requires
        stack_unique(stack),
        push_outputs_rec(d, stack, outs, alloc_next, i) is Ok,
    ensures
        stack_unique(push_outputs_rec(d, stack, outs, alloc_next, i)->Ok_0.0),
    decreases outs.len() - i,
{
    if 0 <= i && i < outs.len() {
        let w = d.types[outs[i]].element_type.width();
        let st_mid = stack.push(StackEntry { idx: alloc_next as usize, width: w });
        lemma_push_unique(stack, StackEntry { idx: alloc_next as usize, width: w });
        lemma_push_outputs_unique(d, st_mid, outs, alloc_next + 1, i + 1);
    }
}

/// Initializing the stack keeps the entries unique.
proof fn lemma_init_unique(stack: Seq<StackEntry>, snap: Seq<crate::memory::MemoryEntryV>, i: int)
    requires
        stack_unique(stack),
        crate::compiler::init_stack_rec(stack, snap, i) is Ok,
    ensures
        stack_unique(crate::compiler::init_stack_rec(stack, snap, i)->Ok_0),
    decreases snap.len() - i,
{
    if 0 <= i && i < snap.len() {
        let w = snap[i].data.slot_count() as usize;
        let st2 = stack.push(StackEntry { idx: i as usize, width: w });
        lemma_push_unique(stack, StackEntry { idx: i as usize, width: w });
        lemma_init_unique(st2, snap, i + 1);
    }
}

/// Law: at every point of trace replay, no two stack entries share an
/// index — together with [`lemma_pull_removes_index`], rolling an index
/// removes its only entry from the model.
pub proof fn lemma_replay_stack_unique<G: FunctionGenerator>(d: DslV<G>, k: int)
    requires
        0 <= k <= d.trace.len(),
        replay_prefix(d, k) is Ok,
    ensures
        stack_unique(replay_prefix(d, k)->Ok_0.stack),
    decreases k,
{
    if k == 0 {
        let snap = crate::compiler::input_snapshot_rec(d, 0, input_count(d))->Ok_0;
        assert(stack_unique(Seq::<StackEntry>::empty()));
        lemma_init_unique(Seq::empty(), snap, 0);
    } else {
        lemma_replay_stack_unique(d, k - 1);
        let st = replay_prefix(d, k - 1)->Ok_0;
        match d.trace[k - 1] {
            TraceEntryV::AllocatedConstant(idx) => {
                let w = d.types[d.memory[idx].data_type].element_type.width();
                lemma_push_unique(st.stack, StackEntry { idx, width: w });
            },
            TraceEntryV::AllocatedHint(idx) => {
                let w = d.types[d.memory[idx].data_type].element_type.width();
                lemma_push_unique(st.stack, StackEntry { idx, width: w });
            },
            TraceEntryV::FunctionCall(name, ins) => {
                let m = d.functions[name];
                lemma_mat_unique(d, st.stack, ins, m.input, 0, 0, st.time, Seq::empty());
                let stm = crate::compiler::mat_rec(
                    d,
                    st.stack,
                    ins,
                    m.input,
                    0,
                    0,
                    st.time,
                    Seq::empty(),
                )->Ok_0.0;
                lemma_push_outputs_unique(d, stm, m.output, st.alloc_next, 0);
            },
            TraceEntryV::FunctionCallWithOptions(name, ins, _) => {
                let m = d.functions[name];
                lemma_mat_unique(d, st.stack, ins, m.input, 0, 0, st.time, Seq::empty());
                let stm = crate::compiler::mat_rec(
                    d,
                    st.stack,
                    ins,
                    m.input,
                    0,
                    0,
                    st.time,
                    Seq::empty(),
                )->Ok_0.0;
                lemma_push_outputs_unique(d, stm, m.output, st.alloc_next, 0);
            },
        }
    }
}

/// Law: on a stack without duplicate indices, pulling an index leaves it
/// with no entry for that index — a roll removes the rolled value's only
/// entry.
pub proof fn lemma_pull_removes_index(s: Seq<StackEntry>, idx: usize)
    requires
        stack_unique(s),
        crate::stack::pull_spec(s, idx) is Some,
    ensures
        !crate::stack::stack_live(crate::stack::pull_spec(s, idx)->0, idx),
        forall|j: int|
            0 <= j < crate::stack::pull_spec(s, idx)->0.len() ==> (#[trigger] crate::stack::pull_spec(
                s,
                idx,
            )->0[j]).idx != idx,
    decreases s.len(),
{
    let t = crate::stack::pull_spec(s, idx)->0;
    lemma_live_exists(t, idx);
    assert forall|j: int| 0 <= j < t.len() implies (#[trigger] t[j]).idx != idx by {
        lemma_pull_entry_source(s, idx, j);
        let j0 = choose|j0: int| 0 <= j0 < s.len() && (#[trigger] s[j0]) == t[j];
        if s[j0].idx == idx {
            if s.last().idx == idx {
                assert(t[j] == s[j]);
                assert(s[j].idx != s[s.len() - 1].idx);
            } else {
                lemma_pull_spec_pos(s, idx);
            }
        }
    }
}

/// When the topmost entry does not match, the pulled index sat strictly
/// below the top, so every remaining entry that came from the original is
/// not the pulled one; stated as: the pull result of a duplicate-free
/// stack never keeps an entry of the pulled index.
proof fn lemma_pull_spec_pos(s: Seq<StackEntry>, idx: usize)
    requires
        stack_unique(s),
        crate::stack::pull_spec(s, idx) is Some,
        s.len() > 0,
        s.last().idx != idx,
    ensures
        forall|j: int|
            0 <= j < crate::stack::pull_spec(s, idx)->0.len() ==> (#[trigger] crate::stack::pull_spec(
                s,
                idx,
            )->0[j]).idx != idx,
    decreases s.len(),
{
    assert(stack_unique(s.drop_last())) by {
        assert forall|a: int, b: int|
            0 <= a < b < s.drop_last().len() implies (#[trigger] s.drop_last()[a]).idx != (
        #[trigger] s.drop_last()[b]).idx by {
            assert(s.drop_last()[a] == s[a] && s.drop_last()[b] == s[b]);
        }
    }
    let t0 = crate::stack::pull_spec(s.drop_last(), idx)->0;
    let t = crate::stack::pull_spec(s, idx)->0;
    assert forall|j: int| 0 <= j < t.len() implies (#[trigger] t[j]).idx != idx by {
        if j < t0.len() {
            if s.drop_last().last().idx == idx {
                assert(t0[j] == s.drop_last().drop_last()[j]);
                assert(t0[j] == s[j]);
                assert(s[j].idx != s[s.drop_last().len() - 1].idx);
            } else {
                lemma_pull_spec_pos(s.drop_last(), idx);
                assert(t[j] == t0[j]);
            }
        } else {
            assert(t[j] == s.last());
        }
    }
}

} // verus!
