use vstd::prelude::*;

use crate::text::{push_decimal, push_str, spec_decimal};

verus! {

/// Errors reported by the library.
#[derive(Clone, Debug)]
pub enum UfoError {
    /// A file could not be read; `source` is the operating system's message.
    ReadFile { path: String, source: String },
    /// A file could not be written; `source` is the operating system's message.
    WriteFile { path: String, source: String },
    Parse(String),
    UnknownElementKind(String),
    UnknownReference(String),
    MissingParameter { kind: String, parameter: String },
    UnsupportedParameter { kind: String, parameter: String },
    ExpectedNumber { kind: String, parameter: String },
    ExpectedVector { kind: String, parameter: String },
    ExpectedString { kind: String, parameter: String },
    TooManyInstructionArgs { name: String, count: usize, max: usize },
    InstructionTooLargeForChunk { name: String, words: usize, chunk_words: usize },
    InvalidBytecodeChunkSize,
    UnsupportedObservation(String),
    OpenCl(String),
}

/// The content of an error, with its texts as character sequences.
pub enum ErrorModel {
    ReadFile { path: Seq<char>, source: Seq<char> },
    WriteFile { path: Seq<char>, source: Seq<char> },
    Parse(Seq<char>),
    UnknownElementKind(Seq<char>),
    UnknownReference(Seq<char>),
    MissingParameter { kind: Seq<char>, parameter: Seq<char> },
    UnsupportedParameter { kind: Seq<char>, parameter: Seq<char> },
    ExpectedNumber { kind: Seq<char>, parameter: Seq<char> },
    ExpectedVector { kind: Seq<char>, parameter: Seq<char> },
    ExpectedString { kind: Seq<char>, parameter: Seq<char> },
    TooManyInstructionArgs { name: Seq<char>, count: usize, max: usize },
    InstructionTooLargeForChunk { name: Seq<char>, words: usize, chunk_words: usize },
    InvalidBytecodeChunkSize,
    UnsupportedObservation(Seq<char>),
    OpenCl(Seq<char>),
}

impl View for UfoError {
    type V = ErrorModel;

    open spec fn view(&self) -> ErrorModel {
        match self {
            UfoError::ReadFile { path, source } => ErrorModel::ReadFile { path: path@, source: source@ },
            UfoError::WriteFile { path, source } => ErrorModel::WriteFile {
                path: path@,
                source: source@,
            },
            UfoError::Parse(m) => ErrorModel::Parse(m@),
            UfoError::UnknownElementKind(k) => ErrorModel::UnknownElementKind(k@),
            UfoError::UnknownReference(l) => ErrorModel::UnknownReference(l@),
            UfoError::MissingParameter { kind, parameter } => ErrorModel::MissingParameter {
                kind: kind@,
                parameter: parameter@,
            },
            UfoError::UnsupportedParameter { kind, parameter } => ErrorModel::UnsupportedParameter {
                kind: kind@,
                parameter: parameter@,
            },
            UfoError::ExpectedNumber { kind, parameter } => ErrorModel::ExpectedNumber {
                kind: kind@,
                parameter: parameter@,
            },
            UfoError::ExpectedVector { kind, parameter } => ErrorModel::ExpectedVector {
                kind: kind@,
                parameter: parameter@,
            },
            UfoError::ExpectedString { kind, parameter } => ErrorModel::ExpectedString {
                kind: kind@,
                parameter: parameter@,
            },
            UfoError::TooManyInstructionArgs { name, count, max } => ErrorModel::TooManyInstructionArgs {
                name: name@,
                count: *count,
                max: *max,
            },
            UfoError::InstructionTooLargeForChunk { name, words, chunk_words } =>
                ErrorModel::InstructionTooLargeForChunk {
                name: name@,
                words: *words,
                chunk_words: *chunk_words,
            },
            UfoError::InvalidBytecodeChunkSize => ErrorModel::InvalidBytecodeChunkSize,
            UfoError::UnsupportedObservation(o) => ErrorModel::UnsupportedObservation(o@),
            UfoError::OpenCl(m) => ErrorModel::OpenCl(m@),
        }
    }
}

/// The library's result type.
pub type Result<T> = core::result::Result<T, UfoError>;


/// The message of an error, as the error's display writes it.
pub open spec fn spec_message(e: ErrorModel) -> Seq<char> {
    match e {
        ErrorModel::ReadFile { path, source } => "failed to read "@ + path + ": "@ + source,
        ErrorModel::WriteFile { path, source } => "failed to write "@ + path + ": "@ + source,
        ErrorModel::Parse(m) => "failed to parse MAD input: "@ + m,
        ErrorModel::UnknownElementKind(k) => "unknown MAD element kind `"@ + k + "`"@,
        ErrorModel::UnknownReference(l) => "unknown element or line reference `"@ + l + "`"@,
        ErrorModel::MissingParameter { kind, parameter } => "missing required parameter `"@
            + parameter + "` for `"@ + kind + "`"@,
        ErrorModel::UnsupportedParameter { kind, parameter } => "unsupported parameter `"@
            + parameter + "` for `"@ + kind + "`"@,
        ErrorModel::ExpectedNumber { kind, parameter } => "parameter `"@ + parameter
            + "` for `"@ + kind + "` must be numeric"@,
        ErrorModel::ExpectedVector { kind, parameter } => "parameter `"@ + parameter
            + "` for `"@ + kind + "` must be a numeric vector"@,
        ErrorModel::ExpectedString { kind, parameter } => "parameter `"@ + parameter
            + "` for `"@ + kind + "` must be a string"@,
        ErrorModel::TooManyInstructionArgs { name, count, max } => "bytecode instruction `"@
            + name + "` uses "@ + spec_decimal(count as nat) + " arguments, maximum is "@
            + spec_decimal(max as nat),
        ErrorModel::InstructionTooLargeForChunk { name, words, chunk_words } =>
            "bytecode instruction `"@ + name + "` needs "@ + spec_decimal(words as nat)
            + " words, larger than chunk size "@ + spec_decimal(chunk_words as nat),
        ErrorModel::InvalidBytecodeChunkSize => "bytecode chunk size must be at least 2 words"@,
        ErrorModel::UnsupportedObservation(o) => "tracking observation `"@ + o
            + "` is not supported yet"@,
        ErrorModel::OpenCl(m) => "OpenCL error: "@ + m,
    }
}

impl UfoError {
    /// The message of the error, as its display writes it.
    pub fn message(&self) -> (r: String)
        ensures
            r@ == spec_message(self@),
    {
        let mut out = String::new();
        match self {
            UfoError::ReadFile { path, source } => {
                push_str(&mut out, "failed to read ");
                push_str(&mut out, path.as_str());
                push_str(&mut out, ": ");
                push_str(&mut out, source.as_str());
            },
            UfoError::WriteFile { path, source } => {
                push_str(&mut out, "failed to write ");
                push_str(&mut out, path.as_str());
                push_str(&mut out, ": ");
                push_str(&mut out, source.as_str());
            },
            UfoError::Parse(m) => {
                push_str(&mut out, "failed to parse MAD input: ");
                push_str(&mut out, m.as_str());
            },
            UfoError::UnknownElementKind(k) => {
                push_str(&mut out, "unknown MAD element kind `");
                push_str(&mut out, k.as_str());
                push_str(&mut out, "`");
            },
            UfoError::UnknownReference(l) => {
                push_str(&mut out, "unknown element or line reference `");
                push_str(&mut out, l.as_str());
                push_str(&mut out, "`");
            },
            UfoError::MissingParameter { kind, parameter } => {
                push_str(&mut out, "missing required parameter `");
                push_str(&mut out, parameter.as_str());
                push_str(&mut out, "` for `");
                push_str(&mut out, kind.as_str());
                push_str(&mut out, "`");
            },
            UfoError::UnsupportedParameter { kind, parameter } => {
                push_str(&mut out, "unsupported parameter `");
                push_str(&mut out, parameter.as_str());
                push_str(&mut out, "` for `");
                push_str(&mut out, kind.as_str());
                push_str(&mut out, "`");
            },
            UfoError::ExpectedNumber { kind, parameter } => {
                push_str(&mut out, "parameter `");
                push_str(&mut out, parameter.as_str());
                push_str(&mut out, "` for `");
                push_str(&mut out, kind.as_str());
                push_str(&mut out, "` must be numeric");
            },
            UfoError::ExpectedVector { kind, parameter } => {
                push_str(&mut out, "parameter `");
                push_str(&mut out, parameter.as_str());
                push_str(&mut out, "` for `");
                push_str(&mut out, kind.as_str());
                push_str(&mut out, "` must be a numeric vector");
            },
            UfoError::ExpectedString { kind, parameter } => {
                push_str(&mut out, "parameter `");
                push_str(&mut out, parameter.as_str());
                push_str(&mut out, "` for `");
                push_str(&mut out, kind.as_str());
                push_str(&mut out, "` must be a string");
            },
            UfoError::TooManyInstructionArgs { name, count, max } => {
                push_str(&mut out, "bytecode instruction `");
                push_str(&mut out, name.as_str());
                push_str(&mut out, "` uses ");
                push_decimal(&mut out, *count);
                push_str(&mut out, " arguments, maximum is ");
                push_decimal(&mut out, *max);
            },
            UfoError::InstructionTooLargeForChunk { name, words, chunk_words } => {
                push_str(&mut out, "bytecode instruction `");
                push_str(&mut out, name.as_str());
                push_str(&mut out, "` needs ");
                push_decimal(&mut out, *words);
                push_str(&mut out, " words, larger than chunk size ");
                push_decimal(&mut out, *chunk_words);
            },
            UfoError::InvalidBytecodeChunkSize => {
                push_str(&mut out, "bytecode chunk size must be at least 2 words");
            },
            UfoError::UnsupportedObservation(o) => {
                push_str(&mut out, "tracking observation `");
                push_str(&mut out, o.as_str());
                push_str(&mut out, "` is not supported yet");
            },
            UfoError::OpenCl(m) => {
                push_str(&mut out, "OpenCL error: ");
                push_str(&mut out, m.as_str());
            },
        }
        proof {
            assert(out@ =~= spec_message(self@));
        }
        out
    }
}

} // verus!
