//! Error taxonomy.
//!
//! All errors are reported synchronously as failures of the front-end call
//! or of the compilation call; nothing is recovered internally.

use vstd::prelude::*;

verus! {

/// Errors detected by the front-end builder.
#[derive(Debug)]
pub enum DslError {
    /// The named data type has not been registered.
    DataTypeNotRegistered,
    /// The value's shape does not match the declared data type.
    DataTypeMismatch,
    /// The memory index counter cannot be advanced, or an index is already
    /// occupied.
    MemoryCorrupted,
    /// Inputs can only be allocated before any execution or before any
    /// allocation of constants or hints.
    InputAfterLock,
    /// The requested memory cell does not exist or does not hold a value of
    /// the requested shape.
    CannotReadAs,
    /// The named function has not been registered.
    FunctionNotRegistered,
    /// The number of call arguments differs from the declared input arity.
    InputArityMismatch,
    /// A call argument's data type differs from the declared input type.
    InputTypeMismatch,
    /// The registered function does not accept per-call options.
    OptionsNotAccepted,
    /// The trace generator failed; its reason is carried verbatim.
    FunctionExecutionFailed(String),
    /// The trace generator returned a number of elements that differs from
    /// the declared output arity.
    OutputArityMismatch,
    /// A returned element's data type differs from the declared output type.
    OutputTypeMismatch,
    /// A returned element's shape does not match its declared data type.
    OutputDataMismatch,
}

/// The mathematical value of a [`DslError`]: the variant with the verbatim
/// generator reason dropped.
#[derive(PartialEq, Eq, Structural)]
pub enum DslErrV {
    DataTypeNotRegistered,
    DataTypeMismatch,
    MemoryCorrupted,
    InputAfterLock,
    CannotReadAs,
    FunctionNotRegistered,
    InputArityMismatch,
    InputTypeMismatch,
    OptionsNotAccepted,
    FunctionExecutionFailed,
    OutputArityMismatch,
    OutputTypeMismatch,
    OutputDataMismatch,
}

impl View for DslError {
    type V = DslErrV;

    open spec fn view(&self) -> DslErrV {
        match self {
            DslError::DataTypeNotRegistered => DslErrV::DataTypeNotRegistered,
            DslError::DataTypeMismatch => DslErrV::DataTypeMismatch,
            DslError::MemoryCorrupted => DslErrV::MemoryCorrupted,
            DslError::InputAfterLock => DslErrV::InputAfterLock,
            DslError::CannotReadAs => DslErrV::CannotReadAs,
            DslError::FunctionNotRegistered => DslErrV::FunctionNotRegistered,
            DslError::InputArityMismatch => DslErrV::InputArityMismatch,
            DslError::InputTypeMismatch => DslErrV::InputTypeMismatch,
            DslError::OptionsNotAccepted => DslErrV::OptionsNotAccepted,
            DslError::FunctionExecutionFailed(_) => DslErrV::FunctionExecutionFailed,
            DslError::OutputArityMismatch => DslErrV::OutputArityMismatch,
            DslError::OutputTypeMismatch => DslErrV::OutputTypeMismatch,
            DslError::OutputDataMismatch => DslErrV::OutputDataMismatch,
        }
    }
}

/// Errors of the compile-time stack model.  Each indicates a bug in either
/// the compiler or a function generator's contract.
#[derive(Debug, Clone, Copy, PartialEq, Eq, Structural)]
pub enum StackError {
    /// The index is not currently live on the simulated stack.
    NotOnStack,
    /// The index is already live on the simulated stack.
    AlreadyOnStack,
    /// The total slot count would not fit the machine word.
    TooManySlots,
}

/// Errors of the lowering driver.
#[derive(Debug)]
pub enum CompileError {
    /// A trace entry names a function that is not registered.
    FunctionNotRegistered,
    /// A trace entry refers to a memory index that does not exist.
    IndexNotInMemory,
    /// A memory entry names a data type that is not registered.
    DataTypeNotRegistered,
    /// A `FunctionCallWithOptions` trace entry targets a function that did
    /// not declare an options-accepting generator.
    OptionsNotAccepted,
    /// A script generator failed; its reason is carried verbatim.
    ScriptGeneratorFailed(String),
    /// A stack-model operation failed.
    StackModel(StackError),
    /// A distance, a counter or a value does not fit the machine limits of
    /// the emitted encoding.
    TooLarge,
}

/// The mathematical value of a [`CompileError`]: the variant with the
/// verbatim generator reason dropped.
pub enum CompileErrV {
    FunctionNotRegistered,
    IndexNotInMemory,
    DataTypeNotRegistered,
    OptionsNotAccepted,
    ScriptGeneratorFailed,
    StackModel(StackError),
    TooLarge,
}

impl View for CompileError {
    type V = CompileErrV;

    open spec fn view(&self) -> CompileErrV {
        match self {
            CompileError::FunctionNotRegistered => CompileErrV::FunctionNotRegistered,
            CompileError::IndexNotInMemory => CompileErrV::IndexNotInMemory,
            CompileError::DataTypeNotRegistered => CompileErrV::DataTypeNotRegistered,
            CompileError::OptionsNotAccepted => CompileErrV::OptionsNotAccepted,
            CompileError::ScriptGeneratorFailed(_) => CompileErrV::ScriptGeneratorFailed,
            CompileError::StackModel(e) => CompileErrV::StackModel(*e),
            CompileError::TooLarge => CompileErrV::TooLarge,
        }
    }
}

} // verus!
