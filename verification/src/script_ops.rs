//! The opcode selector: closed-form emitters for moving (`roll`) and
//! copying (`pick`) a contiguous block of machine slots to the stack top,
//! choosing the shortest opcode form for the block's distance.
//!
//! Applying the chosen opcode once per slot works because, after one slot
//! moves, the originally adjacent slot stands at the same distance again.

use vstd::prelude::*;
use crate::encode::{
    int_push_bytes_of, push_int_script, OP_DUP, OP_OVER, OP_PICK, OP_ROLL, OP_ROT, OP_SWAP,
};

verus! {

/// `n` copies of a byte chunk, concatenated.
pub open spec fn repeat_bytes(b: Seq<u8>, n: int) -> Seq<u8>
    decreases n,
{
    if n <= 0 {
        Seq::empty()
    } else {
        repeat_bytes(b, n - 1) + b
    }
}

/// A repetition's length is the chunk length times the count.
pub proof fn lemma_repeat_bytes_len(b: Seq<u8>, n: int)
    requires
        n >= 0,
    ensures
        repeat_bytes(b, n).len() == n * b.len(),
    decreases n,
{
    if n == 0 {
        assert(repeat_bytes(b, 0).len() == 0);
        assert(0int * b.len() == 0) by (nonlinear_arith);
    } else {
        lemma_repeat_bytes_len(b, n - 1);
        assert(repeat_bytes(b, n).len() == repeat_bytes(b, n - 1).len() + b.len());
        let l: int = b.len() as int;
        assert(n * l == (n - 1) * l + l) by (nonlinear_arith);
    }
}

/// The bytes that move a `width`-slot block whose deepest slot is
/// `distance` from the top, to the top.
pub open spec fn roll_bytes(distance: int, width: int) -> Seq<u8> {
    if distance == width - 1 {
        Seq::empty()
    } else if distance == 1 {
        repeat_bytes(seq![OP_SWAP], width)
    } else if distance == 2 {
        repeat_bytes(seq![OP_ROT], width)
    } else {
        repeat_bytes(int_push_bytes_of(distance) + seq![OP_ROLL], width)
    }
}

/// The bytes that copy the same block to the top, leaving the original in
/// place.
pub open spec fn pick_bytes(distance: int, width: int) -> Seq<u8> {
    if distance == 0 {
        repeat_bytes(seq![OP_DUP], width)
    } else if distance == 1 {
        repeat_bytes(seq![OP_OVER], width)
    } else {
        repeat_bytes(int_push_bytes_of(distance) + seq![OP_PICK], width)
    }
}

/// Emits `n` copies of a byte chunk.
pub fn emit_repeat(chunk: &Vec<u8>, n: usize) -> (r: Vec<u8>)
    ensures
        r@ == repeat_bytes(chunk@, n as int),
{
    let mut r: Vec<u8> = Vec::new();
    let mut i: usize = 0;
    proof {
        assert(r@ =~= repeat_bytes(chunk@, 0));
    }
    while i < n
        invariant
            i <= n,
            r@ == repeat_bytes(chunk@, i as int),
        decreases n - i,
    {
        let mut j: usize = 0;
        proof {
            assert(r@ + chunk@.take(0) =~= r@);
        }
        while j < chunk.len()
            invariant
                j <= chunk.len(),
                i < n,
                r@ == repeat_bytes(chunk@, i as int) + chunk@.take(j as int),
            decreases chunk.len() - j,
        {
            r.push(chunk[j]);
            j = j + 1;
            proof {
                assert(repeat_bytes(chunk@, i as int) + chunk@.take(j as int) =~= (repeat_bytes(
                    chunk@,
                    i as int,
                ) + chunk@.take(j as int - 1)).push(chunk@[j as int - 1]));
            }
        }
        i = i + 1;
        proof {
            assert(chunk@.take(chunk@.len() as int) =~= chunk@);
            assert(r@ =~= repeat_bytes(chunk@, i as int));
        }
    }
    r
}

/// One opcode as a one-byte chunk.
fn one_byte_chunk(op: u8) -> (r: Vec<u8>)
    ensures
        r@ == seq![op],
{
    let mut r: Vec<u8> = Vec::new();
    r.push(op);
    proof {
        assert(r@ =~= seq![op]);
    }
    r
}

/// An immediate push followed by one opcode, as a chunk.
fn immediate_chunk(distance: usize, op: u8) -> (r: Vec<u8>)
    requires
        distance <= i64::MAX,
    ensures
        r@ == int_push_bytes_of(distance as int) + seq![op],
{
    let mut r = push_int_script(distance as i64);
    r.push(op);
    proof {
        assert(r@ =~= int_push_bytes_of(distance as int) + seq![op]);
    }
    r
}

/// The shortest opcode sequence that moves a `len`-slot block whose
/// deepest slot is `distance` from the top, to the top.  A block already
/// at the top needs no bytes.
pub fn roll_script(distance: usize, len: usize) -> (r: Vec<u8>)
    requires
        distance <= i64::MAX,
    ensures
        r@ == roll_bytes(distance as int, len as int),
{
    if len >= 1 && distance == len - 1 {
        let r: Vec<u8> = Vec::new();
        proof {
            assert(r@ =~= roll_bytes(distance as int, len as int));
        }
        r
    } else if distance == 1 {
        let chunk = one_byte_chunk(crate::encode::opcode_byte_swap());
        emit_repeat(&chunk, len)
    } else if distance == 2 {
        let chunk = one_byte_chunk(crate::encode::opcode_byte_rot());
        emit_repeat(&chunk, len)
    } else {
        let chunk = immediate_chunk(distance, crate::encode::opcode_byte_roll());
        emit_repeat(&chunk, len)
    }
}

/// The shortest opcode sequence that copies the same block to the top,
/// leaving the original in place.
pub fn pick_script(distance: usize, len: usize) -> (r: Vec<u8>)
    requires
        distance <= i64::MAX,
    ensures
        r@ == pick_bytes(distance as int, len as int),
{
    if distance == 0 {
        let chunk = one_byte_chunk(crate::encode::opcode_byte_dup());
        emit_repeat(&chunk, len)
    } else if distance == 1 {
        let chunk = one_byte_chunk(crate::encode::opcode_byte_over());
        emit_repeat(&chunk, len)
    } else {
        let chunk = immediate_chunk(distance, crate::encode::opcode_byte_pick());
        emit_repeat(&chunk, len)
    }
}

} // verus!
