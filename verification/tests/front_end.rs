//! Front-end behaviour: allocation, type checking, reads, and the opcode
//! selector.

use script_dsl::dsl::DSL;
use script_dsl::element::{Element, ElementType};
use script_dsl::errors::DslError;
use script_dsl::functions::{
    AcceptableFunctionMetadata, FixedFunction, FormalParam, FunctionMetadata,
};
use script_dsl::memory::MemoryEntry;
use script_dsl::options::Options;
use script_dsl::script_ops::{pick_script, roll_script};

fn num_dsl() -> DSL<FixedFunction> {
    let mut dsl: DSL<FixedFunction> = DSL::new();
    dsl.add_data_type("num", ElementType::Num);
    dsl.add_data_type("bytes", ElementType::Str);
    dsl
}

#[test]
fn element_widths() {
    assert_eq!(ElementType::Num.len(), 1);
    assert_eq!(ElementType::Str.len(), 1);
    assert_eq!(ElementType::ManyNum(4).len(), 4);
    assert_eq!(ElementType::ManyStr(2).len(), 2);
    assert_eq!(Element::Num(3).len(), 1);
    assert_eq!(Element::ManyNum(vec![1, 2]).len(), 2);
    assert_eq!(Element::Str(vec![1]).len(), 1);
    assert_eq!(Element::ManyStr(vec![vec![1], vec![2, 3]]).len(), 2);
}

#[test]
fn match_type_checks_shape_and_length() {
    assert!(Element::Num(1).match_type(&ElementType::Num));
    assert!(!Element::Num(1).match_type(&ElementType::Str));
    assert!(Element::ManyNum(vec![1, 2]).match_type(&ElementType::ManyNum(2)));
    assert!(!Element::ManyNum(vec![1, 2]).match_type(&ElementType::ManyNum(3)));
    assert!(Element::ManyStr(vec![vec![]]).match_type(&ElementType::ManyStr(1)));
    assert!(!Element::Str(vec![]).match_type(&ElementType::ManyStr(1)));
}

#[test]
fn alloc_rejects_unknown_type() {
    let mut dsl = num_dsl();
    let e = dsl.alloc_input("missing", Element::Num(1)).unwrap_err();
    assert!(matches!(e, DslError::DataTypeNotRegistered));
}

#[test]
fn alloc_rejects_mismatched_shape() {
    let mut dsl = num_dsl();
    let e = dsl.alloc_input("num", Element::Str(vec![1])).unwrap_err();
    assert!(matches!(e, DslError::DataTypeMismatch));
}

#[test]
fn inputs_lock_after_constant() {
    let mut dsl = num_dsl();
    dsl.alloc_constant("num", Element::Num(1)).unwrap();
    let e = dsl.alloc_input("num", Element::Num(2)).unwrap_err();
    assert!(matches!(e, DslError::InputAfterLock));
}

#[test]
fn reads_check_shape() {
    let mut dsl = num_dsl();
    dsl.alloc_input("num", Element::Num(7)).unwrap();
    dsl.alloc_input("bytes", Element::Str(vec![1, 2])).unwrap();
    assert_eq!(dsl.get_num(0).unwrap(), 7);
    assert_eq!(dsl.get_str(1).unwrap(), &[1, 2]);
    assert!(matches!(dsl.get_num(1).unwrap_err(), DslError::CannotReadAs));
    assert!(matches!(dsl.get_str(9).unwrap_err(), DslError::CannotReadAs));
}

#[test]
fn reads_of_vector_shapes() {
    let mut dsl: DSL<FixedFunction> = DSL::new();
    dsl.add_data_type("v2", ElementType::ManyNum(2));
    dsl.add_data_type("s2", ElementType::ManyStr(2));
    dsl.alloc_input("v2", Element::ManyNum(vec![4, 5])).unwrap();
    dsl.alloc_input("s2", Element::ManyStr(vec![vec![1], vec![2]])).unwrap();
    assert_eq!(dsl.get_many_num(0).unwrap(), &[4, 5]);
    assert_eq!(dsl.get_many_str(1).unwrap(), &[vec![1u8], vec![2u8]]);
    assert!(matches!(dsl.get_many_num(1).unwrap_err(), DslError::CannotReadAs));
    assert!(matches!(dsl.get_many_str(0).unwrap_err(), DslError::CannotReadAs));
}

#[test]
fn set_name_updates_description() {
    let mut dsl = num_dsl();
    dsl.alloc_input("num", Element::Num(7)).unwrap();
    dsl.set_name(0, "seven").unwrap();
    assert!(matches!(dsl.set_name(3, "nope").unwrap_err(), DslError::CannotReadAs));
}

#[test]
fn execute_validates_registration_arity_and_types() {
    let mut dsl = num_dsl();
    dsl.add_function(
        "id",
        AcceptableFunctionMetadata::FunctionWithoutOptions(FunctionMetadata {
            input: vec![FormalParam::by_value("num")],
            output: vec!["num".to_string()],
            generator: FixedFunction {
                script_bytes: vec![],
                elements: vec![MemoryEntry::new("num", Element::Num(0))],
                hints: vec![],
            },
        }),
    );
    dsl.alloc_input("num", Element::Num(1)).unwrap();
    dsl.alloc_input("bytes", Element::Str(vec![1])).unwrap();
    assert!(matches!(
        dsl.execute("nope", &[0]).unwrap_err(),
        DslError::FunctionNotRegistered
    ));
    assert!(matches!(
        dsl.execute("id", &[0, 0]).unwrap_err(),
        DslError::InputArityMismatch
    ));
    assert!(matches!(
        dsl.execute("id", &[1]).unwrap_err(),
        DslError::InputTypeMismatch
    ));
    assert!(matches!(
        dsl.execute_with_options("id", &[0], Options::new()).unwrap_err(),
        DslError::OptionsNotAccepted
    ));
    let outs = dsl.execute("id", &[0]).unwrap();
    assert_eq!(outs, vec![2]);
}

#[test]
fn execute_validates_generator_outputs() {
    let mut dsl = num_dsl();
    dsl.add_function(
        "bad_arity",
        AcceptableFunctionMetadata::FunctionWithoutOptions(FunctionMetadata {
            input: vec![],
            output: vec!["num".to_string()],
            generator: FixedFunction { script_bytes: vec![], elements: vec![], hints: vec![] },
        }),
    );
    dsl.add_function(
        "bad_type",
        AcceptableFunctionMetadata::FunctionWithoutOptions(FunctionMetadata {
            input: vec![],
            output: vec!["num".to_string()],
            generator: FixedFunction {
                script_bytes: vec![],
                elements: vec![MemoryEntry::new("bytes", Element::Str(vec![]))],
                hints: vec![],
            },
        }),
    );
    dsl.add_function(
        "bad_shape",
        AcceptableFunctionMetadata::FunctionWithoutOptions(FunctionMetadata {
            input: vec![],
            output: vec!["num".to_string()],
            generator: FixedFunction {
                script_bytes: vec![],
                elements: vec![MemoryEntry::new("num", Element::Str(vec![]))],
                hints: vec![],
            },
        }),
    );
    assert!(matches!(
        dsl.execute("bad_arity", &[]).unwrap_err(),
        DslError::OutputArityMismatch
    ));
    assert!(matches!(
        dsl.execute("bad_type", &[]).unwrap_err(),
        DslError::OutputTypeMismatch
    ));
    assert!(matches!(
        dsl.execute("bad_shape", &[]).unwrap_err(),
        DslError::OutputDataMismatch
    ));
}

#[test]
fn execute_accumulates_hints() {
    let mut dsl = num_dsl();
    dsl.add_function(
        "hinting",
        AcceptableFunctionMetadata::FunctionWithoutOptions(FunctionMetadata {
            input: vec![],
            output: vec![],
            generator: FixedFunction {
                script_bytes: vec![],
                elements: vec![],
                hints: vec![MemoryEntry::new("num", Element::Num(11))],
            },
        }),
    );
    dsl.execute("hinting", &[]).unwrap();
    assert_eq!(dsl.hint.len(), 1);
}

#[test]
fn options_bag_lookup() {
    let mut o = Options::new();
    o.set("k", Element::Num(1));
    o.set("k", Element::Num(2));
    match o.get("k") {
        Some(Element::Num(v)) => assert_eq!(*v, 2),
        _ => panic!("expected the latest value"),
    }
    assert!(o.get("absent").is_none());
}

#[test]
fn roll_script_selects_shortest_form() {
    // A block already at the top needs no bytes.
    assert_eq!(roll_script(0, 1), Vec::<u8>::new());
    assert_eq!(roll_script(2, 3), Vec::<u8>::new());
    // Distance 1: one SWAP per slot.
    assert_eq!(roll_script(1, 1), vec![0x7c]);
    assert_eq!(roll_script(1, 3), vec![0x7c, 0x7c, 0x7c]);
    // Distance 2: one ROT per slot.
    assert_eq!(roll_script(2, 1), vec![0x7b]);
    // Larger distances: an immediate and a ROLL per slot.
    assert_eq!(roll_script(3, 2), vec![0x53, 0x7a, 0x53, 0x7a]);
}

#[test]
fn pick_script_selects_shortest_form() {
    assert_eq!(pick_script(0, 2), vec![0x76, 0x76]);
    assert_eq!(pick_script(1, 2), vec![0x78, 0x78]);
    assert_eq!(pick_script(2, 2), vec![0x52, 0x79, 0x52, 0x79]);
    assert_eq!(pick_script(17, 1), vec![0x01, 0x11, 0x79]);
}

#[test]
fn memory_entries_carry_descriptions() {
    let e = MemoryEntry::new("num", Element::Num(1));
    assert!(e.description.is_none());
    let e2 = MemoryEntry::new_with_description("num", Element::Num(1), "one");
    assert_eq!(e2.description.as_deref(), Some("one"));
    let e3 = e2.clone();
    assert_eq!(e3.data_type, "num");
}
