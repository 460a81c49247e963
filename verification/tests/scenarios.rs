//! End-to-end compilation scenarios with exact expected byte sequences.

use script_dsl::compiler::Compiler;
use script_dsl::dsl::{TraceEntry, DSL};
use script_dsl::element::{Element, ElementType};
use script_dsl::functions::{
    AcceptableFunctionMetadata, FixedFunction, FormalParam, FunctionMetadata,
};
use script_dsl::memory::MemoryEntry;
use script_dsl::options::Options;

const OP_TOALT: u8 = 0x6b;
const OP_FROMALT: u8 = 0x6c;
const OP_DROP: u8 = 0x75;
const OP_OVER: u8 = 0x78;
const OP_PICK: u8 = 0x79;
const OP_ROLL: u8 = 0x7a;
const OP_ROT: u8 = 0x7b;
const OP_SWAP: u8 = 0x7c;
const OP_ADD: u8 = 0x93;
const OP_0: u8 = 0x00;
const OP_2: u8 = 0x52;

fn num_dsl() -> DSL<FixedFunction> {
    let mut dsl: DSL<FixedFunction> = DSL::new();
    dsl.add_data_type("num", ElementType::Num);
    dsl
}

fn register_add(dsl: &mut DSL<FixedFunction>) {
    dsl.add_function(
        "add",
        AcceptableFunctionMetadata::FunctionWithoutOptions(FunctionMetadata {
            input: vec![FormalParam::by_value("num"), FormalParam::by_value("num")],
            output: vec!["num".to_string()],
            generator: FixedFunction {
                script_bytes: vec![OP_ADD],
                elements: vec![MemoryEntry::new("num", Element::Num(3))],
                hints: vec![],
            },
        }),
    );
}

#[test]
fn single_input_identity_output() {
    let mut dsl = num_dsl();
    let i0 = dsl.alloc_input("num", Element::Num(7)).unwrap();
    assert_eq!(i0, 0);
    dsl.num_inputs = Some(1);
    dsl.set_program_output(vec![0]);
    let p = Compiler::compiler(dsl).unwrap();
    assert_eq!(p.script.as_bytes(), &[OP_0, OP_ROLL, OP_TOALT, OP_FROMALT]);
    assert_eq!(p.input.len(), 1);
}

#[test]
fn constant_push_then_drop() {
    let mut dsl = num_dsl();
    let c = dsl.alloc_constant("num", Element::Num(42)).unwrap();
    assert_eq!(c, 0);
    dsl.set_program_output(vec![]);
    let p = Compiler::compiler(dsl).unwrap();
    assert_eq!(p.script.as_bytes(), &[0x01, 0x2a, OP_DROP]);
}

#[test]
fn two_input_add_both_die() {
    let mut dsl = num_dsl();
    register_add(&mut dsl);
    dsl.alloc_input("num", Element::Num(1)).unwrap();
    dsl.alloc_input("num", Element::Num(2)).unwrap();
    let outs = dsl.execute("add", &[0, 1]).unwrap();
    assert_eq!(outs, vec![2]);
    dsl.set_program_output(vec![2]);
    let p = Compiler::compiler(dsl).unwrap();
    assert_eq!(
        p.script.as_bytes(),
        &[OP_SWAP, OP_SWAP, OP_ADD, OP_0, OP_ROLL, OP_TOALT, OP_FROMALT],
    );
}

#[test]
fn shared_input_used_twice() {
    let mut dsl = num_dsl();
    register_add(&mut dsl);
    dsl.alloc_input("num", Element::Num(1)).unwrap();
    dsl.alloc_input("num", Element::Num(2)).unwrap();
    let outs = dsl.execute("add", &[0, 0]).unwrap();
    assert_eq!(outs, vec![2]);
    dsl.set_program_output(vec![2]);
    let p = Compiler::compiler(dsl).unwrap();
    assert_eq!(
        p.script.as_bytes(),
        &[OP_OVER, OP_ROT, OP_ADD, OP_0, OP_ROLL, OP_TOALT, OP_DROP, OP_FROMALT],
    );
}

#[test]
fn output_repeated() {
    let mut dsl = num_dsl();
    dsl.alloc_input("num", Element::Num(5)).unwrap();
    dsl.num_inputs = Some(1);
    dsl.set_program_output(vec![0, 0]);
    let p = Compiler::compiler(dsl).unwrap();
    assert_eq!(
        p.script.as_bytes(),
        &[OP_0, OP_PICK, OP_TOALT, OP_0, OP_ROLL, OP_TOALT, OP_FROMALT, OP_FROMALT],
    );
}

#[test]
fn vector_width_three() {
    let mut dsl: DSL<FixedFunction> = DSL::new();
    dsl.add_data_type("vec3", ElementType::ManyNum(3));
    dsl.add_function(
        "identity",
        AcceptableFunctionMetadata::FunctionWithoutOptions(FunctionMetadata {
            input: vec![FormalParam::by_value("vec3")],
            output: vec!["vec3".to_string()],
            generator: FixedFunction {
                script_bytes: vec![],
                elements: vec![MemoryEntry::new("vec3", Element::ManyNum(vec![0, 0, 0]))],
                hints: vec![],
            },
        }),
    );
    dsl.alloc_input("vec3", Element::ManyNum(vec![1, 2, 3])).unwrap();
    let outs = dsl.execute("identity", &[0]).unwrap();
    assert_eq!(outs, vec![1]);
    dsl.set_program_output(vec![1]);
    let p = Compiler::compiler(dsl).unwrap();
    // The argument block is already at the top, so its roll emits nothing;
    // drainage rolls the width-3 output from the depth of its deepest slot.
    assert_eq!(
        p.script.as_bytes(),
        &[
            OP_2, OP_ROLL, OP_2, OP_ROLL, OP_2, OP_ROLL, OP_TOALT, OP_TOALT, OP_TOALT,
            OP_FROMALT, OP_FROMALT, OP_FROMALT,
        ],
    );
}

#[test]
fn recompiling_same_dsl_is_byte_identical() {
    let build = || {
        let mut dsl = num_dsl();
        register_add(&mut dsl);
        dsl.alloc_input("num", Element::Num(1)).unwrap();
        dsl.alloc_input("num", Element::Num(2)).unwrap();
        dsl.execute("add", &[0, 1]).unwrap();
        dsl.set_program_output(vec![2]);
        dsl
    };
    let p1 = Compiler::compiler(build()).unwrap();
    let p2 = Compiler::compiler(build()).unwrap();
    assert_eq!(p1.script.as_bytes(), p2.script.as_bytes());
}

#[test]
fn noop_sequence_keeps_output_bytes() {
    let base = || {
        let mut dsl = num_dsl();
        register_add(&mut dsl);
        dsl.add_function(
            "consume",
            AcceptableFunctionMetadata::FunctionWithoutOptions(FunctionMetadata {
                input: vec![FormalParam::by_value("num")],
                output: vec![],
                generator: FixedFunction {
                    script_bytes: vec![OP_DROP],
                    elements: vec![],
                    hints: vec![],
                },
            }),
        );
        dsl.alloc_input("num", Element::Num(1)).unwrap();
        dsl.alloc_input("num", Element::Num(2)).unwrap();
        dsl.execute("add", &[0, 1]).unwrap();
        dsl
    };
    let mut d1 = base();
    d1.set_program_output(vec![2]);
    let p1 = Compiler::compiler(d1).unwrap();

    let mut d2 = base();
    let c = d2.alloc_constant("num", Element::Num(42)).unwrap();
    d2.execute("consume", &[c]).unwrap();
    d2.set_program_output(vec![2]);
    let p2 = Compiler::compiler(d2).unwrap();

    // The appended constant-and-consume pair inserts only its own push and
    // generator bytes; the drainage and cleanup tail is unchanged.
    let tail: &[u8] = &[OP_0, OP_ROLL, OP_TOALT, OP_FROMALT];
    assert!(p1.script.as_bytes().ends_with(tail));
    assert!(p2.script.as_bytes().ends_with(tail));
    assert_eq!(
        p2.script.as_bytes(),
        &[OP_SWAP, OP_SWAP, OP_ADD, 0x01, 0x2a, OP_DROP, OP_0, OP_ROLL, OP_TOALT, OP_FROMALT],
    );
    assert_eq!(
        p1.script.as_bytes(),
        &[OP_SWAP, OP_SWAP, OP_ADD, OP_0, OP_ROLL, OP_TOALT, OP_FROMALT],
    );
}

#[test]
fn hint_is_drained_from_stack_bottom() {
    let mut dsl = num_dsl();
    let h = dsl.alloc_hint("num", Element::Num(9)).unwrap();
    assert_eq!(h, 0);
    dsl.set_program_output(vec![]);
    let p = Compiler::compiler(dsl).unwrap();
    // DEPTH 1SUB ROLL for the one slot, then one cleanup DROP.
    assert_eq!(p.script.as_bytes(), &[0x74, 0x8c, OP_ROLL, OP_DROP]);
}

#[test]
fn reference_input_is_left_in_place() {
    let mut dsl = num_dsl();
    dsl.add_function(
        "probe",
        AcceptableFunctionMetadata::FunctionWithoutOptions(FunctionMetadata {
            input: vec![FormalParam::by_reference("num")],
            output: vec![],
            generator: FixedFunction {
                script_bytes: vec![0x69],
                elements: vec![],
                hints: vec![],
            },
        }),
    );
    dsl.alloc_input("num", Element::Num(4)).unwrap();
    dsl.execute("probe", &[0]).unwrap();
    dsl.set_program_output(vec![]);
    let p = Compiler::compiler(dsl).unwrap();
    // No materialization bytes; the generator's byte, then the cleanup drop
    // of the untouched reference input.
    assert_eq!(p.script.as_bytes(), &[0x69, OP_DROP]);
}

#[test]
fn options_mismatch_is_reported_at_compile() {
    let mut dsl = num_dsl();
    register_add(&mut dsl);
    dsl.alloc_input("num", Element::Num(1)).unwrap();
    dsl.alloc_input("num", Element::Num(2)).unwrap();
    dsl.execute("add", &[0, 1]).unwrap();
    dsl.set_program_output(vec![2]);
    // Hand-craft a with-options call to a function that does not accept
    // options: the compiler reports it.
    dsl.trace.push(TraceEntry::FunctionCallWithOptions(
        "add".to_string(),
        vec![2, 2],
        Options::new(),
    ));
    match Compiler::compiler(dsl) {
        Err(script_dsl::errors::CompileError::OptionsNotAccepted) => {}
        _ => panic!("expected the options mismatch error"),
    }
}
