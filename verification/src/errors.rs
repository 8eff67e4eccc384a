//! The errors of the virtual machine.

use vstd::prelude::*;
use vstd::string::StringExecFns;

use crate::integer::{decimal_text, Integer};
use crate::value::{Value, ValueView};

verus! {

/// An error at the boundary between host and guest: a host function was
/// handed a value of the wrong shape.
#[derive(Debug)]
pub enum FFIError {
    ExternError { value: Value, msg: String },
}

/// Everything that can go wrong while a contract is compiled, instantiated
/// or run.
#[derive(Debug)]
#[non_exhaustive]
pub enum VmError {
    Panic(String),
    FFIError { source: FFIError },
    CompileErr(String),
    OutOfGas,
    GenericErr(String),
    InstantiationErr(String),
    ExternErr(String),
    ResultMismatch { function_name: String, expected: usize, actual: usize },
    RuntimeErr(String),
    DeserializeErr(String),
}

pub type VMResult<T> = Result<T, VmError>;

/// What an error is, without how its texts are stored.
pub enum ErrorView {
    Panic(Seq<char>),
    TypeMismatch { value: ValueView, msg: Seq<char> },
    CompileErr(Seq<char>),
    OutOfGas,
    GenericErr(Seq<char>),
    InstantiationErr(Seq<char>),
    ExternErr(Seq<char>),
    ResultMismatch { function_name: Seq<char>, expected: usize, actual: usize },
    RuntimeErr(Seq<char>),
    DeserializeErr(Seq<char>),
}

impl View for VmError {
    type V = ErrorView;

    open spec fn view(&self) -> ErrorView {
        match self {
            VmError::Panic(m) => ErrorView::Panic(m@),
            VmError::FFIError { source: FFIError::ExternError { value, msg } } =>
                ErrorView::TypeMismatch { value: value@, msg: msg@ },
            VmError::CompileErr(m) => ErrorView::CompileErr(m@),
            VmError::OutOfGas => ErrorView::OutOfGas,
            VmError::GenericErr(m) => ErrorView::GenericErr(m@),
            VmError::InstantiationErr(m) => ErrorView::InstantiationErr(m@),
            VmError::ExternErr(m) => ErrorView::ExternErr(m@),
            VmError::ResultMismatch { function_name, expected, actual } =>
                ErrorView::ResultMismatch {
                    function_name: function_name@,
                    expected: *expected,
                    actual: *actual,
                },
            VmError::RuntimeErr(m) => ErrorView::RuntimeErr(m@),
            VmError::DeserializeErr(m) => ErrorView::DeserializeErr(m@),
        }
    }
}

/// The text that reports an error.
pub open spec fn error_text(e: ErrorView) -> Seq<char> {
    match e {
        ErrorView::Panic(m) => "Panic: "@ + m,
        ErrorView::TypeMismatch { value, msg } => "Error in host/sandbox ffi: "@ + msg,
        ErrorView::CompileErr(m) => "Error compiling Wasm: "@ + m,
        ErrorView::OutOfGas => "Ran out of gas during contract execution"@,
        ErrorView::GenericErr(m) => "Generic error: "@ + m,
        ErrorView::InstantiationErr(m) => "Error instantiating a Wasm module: "@ + m,
        ErrorView::ExternErr(m) => "Error resolving Wasm function: "@ + m,
        ErrorView::ResultMismatch { function_name, expected, actual } =>
            "Unexpected number of result values when calling '"@ + function_name
                + "'. Expected: "@ + decimal_text(expected as int) + ", actual: "@ + decimal_text(
                actual as int,
            ) + "."@,
        ErrorView::RuntimeErr(m) => "Error executing: "@ + m,
        ErrorView::DeserializeErr(m) => "Error deserializing: "@ + m,
    }
}

/// A type mismatch: the error of a host function that was handed `value`
/// where it expected another shape.
pub fn type_mismatch(value: Value, expected: &str) -> (e: VmError)
    ensures
        e@ == (ErrorView::TypeMismatch { value: value@, msg: expected@ }),
{
    VmError::FFIError {
        source: FFIError::ExternError { value, msg: String::from_str(expected) },
    }
}

/// A runtime error with the given text.
pub fn runtime_error(text: &str) -> (e: VmError)
    ensures
        e@ == ErrorView::RuntimeErr(text@),
{
    VmError::RuntimeErr(String::from_str(text))
}

impl VmError {
    /// The text that reports the error.
    pub fn message(&self) -> (text: String)
        ensures
            text@ == error_text(self@),
    {
        match self {
            VmError::Panic(m) => String::from_str("Panic: ").concat(m.as_str()),
            VmError::FFIError { source: FFIError::ExternError { value, msg } } => String::from_str(
                "Error in host/sandbox ffi: ",
            ).concat(msg.as_str()),
            VmError::CompileErr(m) => String::from_str("Error compiling Wasm: ").concat(m.as_str()),
            VmError::OutOfGas => String::from_str("Ran out of gas during contract execution"),
            VmError::GenericErr(m) => String::from_str("Generic error: ").concat(m.as_str()),
            VmError::InstantiationErr(m) => String::from_str(
                "Error instantiating a Wasm module: ",
            ).concat(m.as_str()),
            VmError::ExternErr(m) => String::from_str("Error resolving Wasm function: ").concat(
                m.as_str(),
            ),
            VmError::ResultMismatch { function_name, expected, actual } => {
                let want = Integer::from_u64(*expected as u64).to_decimal();
                let got = Integer::from_u64(*actual as u64).to_decimal();
                String::from_str("Unexpected number of result values when calling '").concat(
                    function_name.as_str(),
                ).concat("'. Expected: ").concat(want.as_str()).concat(", actual: ").concat(
                    got.as_str(),
                ).concat(".")
            },
            VmError::RuntimeErr(m) => String::from_str("Error executing: ").concat(m.as_str()),
            VmError::DeserializeErr(m) => String::from_str("Error deserializing: ").concat(
                m.as_str(),
            ),
        }
    }
}

} // verus!
