//! The opcode encoder boundary.
//!
//! Single opcodes and literal pushes are serialized by the `bitcoin` crate;
//! the library sees each opcode's byte exactly and each push's bytes under
//! a name that depends on the pushed value alone.

use vstd::prelude::*;
use crate::element::{Element, ElementV};
use crate::errors::{CompileErrV, CompileError};

verus! {

pub const OP_TOALTSTACK: u8 = 0x6b;
pub const OP_FROMALTSTACK: u8 = 0x6c;
pub const OP_2DROP: u8 = 0x6d;
pub const OP_DEPTH: u8 = 0x74;
pub const OP_DROP: u8 = 0x75;
pub const OP_DUP: u8 = 0x76;
pub const OP_OVER: u8 = 0x78;
pub const OP_PICK: u8 = 0x79;
pub const OP_ROLL: u8 = 0x7a;
pub const OP_ROT: u8 = 0x7b;
pub const OP_SWAP: u8 = 0x7c;
pub const OP_1SUB: u8 = 0x8c;

/// The longest byte string a single data push can carry is one under this
/// bound.
pub const MAX_PUSH_LEN: u64 = 0x100000000;

/// Relies on `bitcoin::opcodes`: each listed opcode serializes to the
/// stated byte.
#[verifier::external_body]
pub fn opcode_byte_toaltstack() -> (r: u8)
    ensures
        r == OP_TOALTSTACK,
{
    bitcoin::opcodes::all::OP_TOALTSTACK.to_u8()
}

/// Relies on `bitcoin::opcodes`: see [`opcode_byte_toaltstack`].
#[verifier::external_body]
pub fn opcode_byte_fromaltstack() -> (r: u8)
    ensures
        r == OP_FROMALTSTACK,
{
    bitcoin::opcodes::all::OP_FROMALTSTACK.to_u8()
}

/// Relies on `bitcoin::opcodes`: see [`opcode_byte_toaltstack`].
#[verifier::external_body]
pub fn opcode_byte_2drop() -> (r: u8)
    ensures
        r == OP_2DROP,
{
    bitcoin::opcodes::all::OP_2DROP.to_u8()
}

/// Relies on `bitcoin::opcodes`: see [`opcode_byte_toaltstack`].
#[verifier::external_body]
pub fn opcode_byte_depth() -> (r: u8)
    ensures
        r == OP_DEPTH,
{
    bitcoin::opcodes::all::OP_DEPTH.to_u8()
}

/// Relies on `bitcoin::opcodes`: see [`opcode_byte_toaltstack`].
#[verifier::external_body]
pub fn opcode_byte_drop() -> (r: u8)
    ensures
        r == OP_DROP,
{
    bitcoin::opcodes::all::OP_DROP.to_u8()
}

/// Relies on `bitcoin::opcodes`: see [`opcode_byte_toaltstack`].
#[verifier::external_body]
pub fn opcode_byte_dup() -> (r: u8)
    ensures
        r == OP_DUP,
{
    bitcoin::opcodes::all::OP_DUP.to_u8()
}

/// Relies on `bitcoin::opcodes`: see [`opcode_byte_toaltstack`].
#[verifier::external_body]
pub fn opcode_byte_over() -> (r: u8)
    ensures
        r == OP_OVER,
{
    bitcoin::opcodes::all::OP_OVER.to_u8()
}

/// Relies on `bitcoin::opcodes`: see [`opcode_byte_toaltstack`].
#[verifier::external_body]
pub fn opcode_byte_pick() -> (r: u8)
    ensures
        r == OP_PICK,
{
    bitcoin::opcodes::all::OP_PICK.to_u8()
}

/// Relies on `bitcoin::opcodes`: see [`opcode_byte_toaltstack`].
#[verifier::external_body]
pub fn opcode_byte_roll() -> (r: u8)
    ensures
        r == OP_ROLL,
{
    bitcoin::opcodes::all::OP_ROLL.to_u8()
}

/// Relies on `bitcoin::opcodes`: see [`opcode_byte_toaltstack`].
#[verifier::external_body]
pub fn opcode_byte_rot() -> (r: u8)
    ensures
        r == OP_ROT,
{
    bitcoin::opcodes::all::OP_ROT.to_u8()
}

/// Relies on `bitcoin::opcodes`: see [`opcode_byte_toaltstack`].
#[verifier::external_body]
pub fn opcode_byte_swap() -> (r: u8)
    ensures
        r == OP_SWAP,
{
    bitcoin::opcodes::all::OP_SWAP.to_u8()
}

/// Relies on `bitcoin::opcodes`: see [`opcode_byte_toaltstack`].
#[verifier::external_body]
pub fn opcode_byte_1sub() -> (r: u8)
    ensures
        r == OP_1SUB,
{
    bitcoin::opcodes::all::OP_1SUB.to_u8()
}

/// The bytes of a single integer push; they depend on the integer alone.
pub uninterp spec fn int_push_bytes_of(v: int) -> Seq<u8>;

/// The bytes of a single byte-string push; they depend on the bytes alone.
pub uninterp spec fn data_push_bytes_of(s: Seq<u8>) -> Seq<u8>;

/// Relies on `bitcoin::script::Builder::push_int`: the encoding of an
/// integer push depends on the integer alone.  The smallest machine
/// integer is excluded because its magnitude has no script encoding and
/// the builder would abort on it.
#[verifier::external_body]
pub fn push_int_script(v: i64) -> (r: Vec<u8>)
    requires
        v != i64::MIN,
    ensures
        r@ == int_push_bytes_of(v as int),
{
    bitcoin::script::Builder::new().push_int(v).into_bytes()
}

/// Relies on `bitcoin::script::Builder::push_slice`: the encoding of a data
/// push depends on the bytes alone.  The conversion to the builder's push
/// type refuses byte strings of length [`MAX_PUSH_LEN`] or more, so those
/// are excluded.
#[verifier::external_body]
pub fn push_slice_script(s: &Vec<u8>) -> (r: Vec<u8>)
    requires
        s@.len() < MAX_PUSH_LEN,
    ensures
        r@ == data_push_bytes_of(s@),
{
    let pb: &bitcoin::script::PushBytes = s.as_slice().try_into().expect("length checked");
    bitcoin::script::Builder::new().push_slice(pb).into_bytes()
}

#[verifier::external_type_specification]
#[verifier::external_body]
pub struct ExScriptBuf(bitcoin::ScriptBuf);

/// The bytes a script value holds.
pub uninterp spec fn script_buf_bytes(s: bitcoin::ScriptBuf) -> Seq<u8>;

/// Relies on `bitcoin::ScriptBuf::from_bytes`, which treats the byte
/// vector as the script's bytes without re-encoding them.
#[verifier::external_body]
pub fn script_buf_from_bytes(v: Vec<u8>) -> (r: bitcoin::ScriptBuf)
    ensures
        script_buf_bytes(r) == v@,
{
    bitcoin::ScriptBuf::from_bytes(v)
}

/// Whether every byte string of the sequence is short enough for a single
/// data push.
pub open spec fn strs_pushable(ss: Seq<Seq<u8>>) -> bool
    decreases ss.len(),
{
    if ss.len() == 0 {
        true
    } else {
        strs_pushable(ss.drop_last()) && ss.last().len() < MAX_PUSH_LEN
    }
}

/// Every byte string of a pushable sequence is short enough.
pub proof fn lemma_strs_pushable_at(ss: Seq<Seq<u8>>, j: int)
    requires
        strs_pushable(ss),
        0 <= j < ss.len(),
    ensures
        ss[j].len() < MAX_PUSH_LEN,
    decreases ss.len(),
{
    if j < ss.len() - 1 {
        lemma_strs_pushable_at(ss.drop_last(), j);
    }
}

/// Whether every byte string of the element is short enough for a single
/// data push.
pub open spec fn element_pushable(e: ElementV) -> bool {
    match e {
        ElementV::Num(_) => true,
        ElementV::ManyNum(_) => true,
        ElementV::Str(s) => s.len() < MAX_PUSH_LEN,
        ElementV::ManyStr(ss) => strs_pushable(ss),
    }
}

/// The push bytes of a sequence of integers, one push per slot, in order.
pub open spec fn nums_push_bytes_of(s: Seq<i32>) -> Seq<u8>
    decreases s.len(),
{
    if s.len() == 0 {
        Seq::empty()
    } else {
        nums_push_bytes_of(s.drop_last()) + int_push_bytes_of(s.last() as int)
    }
}

/// The push bytes of a sequence of byte strings, one push per slot, in
/// order.
pub open spec fn strs_push_bytes_of(s: Seq<Seq<u8>>) -> Seq<u8>
    decreases s.len(),
{
    if s.len() == 0 {
        Seq::empty()
    } else {
        strs_push_bytes_of(s.drop_last()) + data_push_bytes_of(s.last())
    }
}

/// The literal push sequence of an element: one push per machine slot, in
/// the natural element order.
pub open spec fn element_push_bytes_of(e: ElementV) -> Seq<u8> {
    match e {
        ElementV::Num(v) => int_push_bytes_of(v as int),
        ElementV::ManyNum(s) => nums_push_bytes_of(s),
        ElementV::Str(s) => data_push_bytes_of(s),
        ElementV::ManyStr(ss) => strs_push_bytes_of(ss),
    }
}

/// Emits the literal push sequence of an element; fails exactly when some
/// byte string of the element is too long for a single push.
pub fn element_push_script(e: &Element) -> (r: Result<Vec<u8>, CompileError>)
    ensures
        match r {
            Ok(b) => element_pushable(e@) && b@ == element_push_bytes_of(e@),
            Err(er) => !element_pushable(e@) && er@ == CompileErrV::TooLarge,
        },
{
    match e {
        Element::Num(v) => Ok(push_int_script(*v as i64)),
        Element::ManyNum(vs) => {
            let mut b: Vec<u8> = Vec::new();
            let mut i: usize = 0;
            proof {
                assert(vs@.take(0) =~= Seq::<i32>::empty());
            }
            while i < vs.len()
                invariant
                    i <= vs.len(),
                    b@ == nums_push_bytes_of(vs@.take(i as int)),
                decreases vs.len() - i,
            {
                let mut chunk = push_int_script(vs[i] as i64);
                b.append(&mut chunk);
                i = i + 1;
                proof {
                    assert(vs@.take(i as int).drop_last() =~= vs@.take(i as int - 1));
                    assert(vs@.take(i as int).last() == vs@[i as int - 1]);
                }
            }
            proof {
                assert(vs@.take(vs@.len() as int) =~= vs@);
            }
            Ok(b)
        },
        Element::Str(s) => {
            if (s.len() as u64) < MAX_PUSH_LEN {
                Ok(push_slice_script(s))
            } else {
                Err(CompileError::TooLarge)
            }
        },
        Element::ManyStr(ss) => {
            let mut b: Vec<u8> = Vec::new();
            let mut i: usize = 0;
            proof {
                assert(ss.deep_view().take(0) =~= Seq::<Seq<u8>>::empty());
            }
            while i < ss.len()
                invariant
                    i <= ss.len(),
                    e@ == ElementV::ManyStr(ss.deep_view()),
                    b@ == strs_push_bytes_of(ss.deep_view().take(i as int)),
                    strs_pushable(ss.deep_view().take(i as int)),
                decreases ss.len() - i,
            {
                if (ss[i].len() as u64) >= MAX_PUSH_LEN {
                    proof {
                        assert(ss.deep_view()[i as int] == ss@[i as int]@);
                        if strs_pushable(ss.deep_view()) {
                            lemma_strs_pushable_at(ss.deep_view(), i as int);
                        }
                        assert(!element_pushable(e@));
                    }
                    return Err(CompileError::TooLarge);
                }
                let mut chunk = push_slice_script(&ss[i]);
                b.append(&mut chunk);
                i = i + 1;
                proof {
                    assert(ss.deep_view().take(i as int).drop_last() =~= ss.deep_view().take(
                        i as int - 1,
                    ));
                    assert(ss.deep_view().take(i as int).last() == ss.deep_view()[i as int - 1]);
                    assert(ss.deep_view()[i as int - 1] == ss@[i as int - 1]@);
                }
            }
            proof {
                assert(ss.deep_view().take(ss.deep_view().len() as int) =~= ss.deep_view());
            }
            Ok(b)
        },
    }
}

} // verus!
