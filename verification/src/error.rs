//! The errors of reading, parsing and resolving schemas.
use vstd::prelude::*;
use crate::package::ProtoVersion;
use crate::text::{decimal, join, push_char, push_decimal, push_joined, views};

verus! {

/// What can go wrong while turning schema files into a scope tree.
#[derive(Debug)]
pub enum ProtoError {
    CannotOpenFile(String),
    IOError(String),
    UnknownCharacter { file_path: String, line: usize, column: usize, character: char },
    InvalidIntLiteral {
        literal: String,
        file_path: String,
        line: usize,
        start_column: usize,
        end_column: usize,
    },
    SyntaxError { file_path: String, line: usize, column: usize, message: String },
    UnsupportedProtoVersion(Vec<String>, ProtoVersion),
    ConflictingFiles { first_path: String, second_path: String },
    Other(String),
    /// A construct the compiler does not handle yet.
    NotImplemented(String),
}

/// The model of an error: texts as character sequences.
pub enum ProtoErrorV {
    CannotOpenFile(Seq<char>),
    IOError(Seq<char>),
    UnknownCharacter { file_path: Seq<char>, line: nat, column: nat, character: char },
    InvalidIntLiteral {
        literal: Seq<char>,
        file_path: Seq<char>,
        line: nat,
        start_column: nat,
        end_column: nat,
    },
    SyntaxError { file_path: Seq<char>, line: nat, column: nat, message: Seq<char> },
    UnsupportedProtoVersion(Seq<Seq<char>>, ProtoVersion),
    ConflictingFiles { first_path: Seq<char>, second_path: Seq<char> },
    Other(Seq<char>),
    NotImplemented(Seq<char>),
}

impl View for ProtoError {
    type V = ProtoErrorV;

    open spec fn view(&self) -> ProtoErrorV {
        match self {
            ProtoError::CannotOpenFile(m) => ProtoErrorV::CannotOpenFile(m@),
            ProtoError::IOError(m) => ProtoErrorV::IOError(m@),
            ProtoError::UnknownCharacter { file_path, line, column, character } =>
                ProtoErrorV::UnknownCharacter {
                    file_path: file_path@,
                    line: *line as nat,
                    column: *column as nat,
                    character: *character,
                },
            ProtoError::InvalidIntLiteral { literal, file_path, line, start_column, end_column } =>
                ProtoErrorV::InvalidIntLiteral {
                    literal: literal@,
                    file_path: file_path@,
                    line: *line as nat,
                    start_column: *start_column as nat,
                    end_column: *end_column as nat,
                },
            ProtoError::SyntaxError { file_path, line, column, message } =>
                ProtoErrorV::SyntaxError {
                    file_path: file_path@,
                    line: *line as nat,
                    column: *column as nat,
                    message: message@,
                },
            ProtoError::UnsupportedProtoVersion(path, version) =>
                ProtoErrorV::UnsupportedProtoVersion(views(path@), *version),
            ProtoError::ConflictingFiles { first_path, second_path } =>
                ProtoErrorV::ConflictingFiles {
                    first_path: first_path@,
                    second_path: second_path@,
                },
            ProtoError::Other(m) => ProtoErrorV::Other(m@),
            ProtoError::NotImplemented(m) => ProtoErrorV::NotImplemented(m@),
        }
    }
}

/// The name of a syntax version.
pub open spec fn version_text(v: ProtoVersion) -> Seq<char> {
    match v {
        ProtoVersion::Proto2 => "proto2"@,
        ProtoVersion::Proto3 => "proto3"@,
    }
}

/// The human-readable description of an error.
pub open spec fn error_text(e: ProtoErrorV) -> Seq<char> {
    match e {
        ProtoErrorV::CannotOpenFile(m) => "Cannot open file: "@ + m,
        ProtoErrorV::IOError(m) => "IO Error: "@ + m,
        ProtoErrorV::UnknownCharacter { file_path, line, column, character } =>
            "Unknown character at "@ + file_path + ":"@ + decimal(line) + ":"@ + decimal(column)
                + ": "@ + seq![character],
        ProtoErrorV::SyntaxError { file_path, line, column, message } =>
            file_path + ":"@ + decimal(line) + ":"@ + decimal(column) + ": SyntaxError: "@ + message,
        ProtoErrorV::InvalidIntLiteral { literal, file_path, line, start_column, end_column } =>
            "Invalid integer literal: \""@ + literal + "\" at "@ + file_path + ":"@ + decimal(line)
                + ":"@ + decimal(start_column) + " to "@ + decimal(end_column),
        ProtoErrorV::UnsupportedProtoVersion(path, version) =>
            "Unsupported proto version: "@ + version_text(version) + if path.len() == 0 {
                Seq::empty()
            } else {
                " in package "@ + join(path, "."@)
            },
        ProtoErrorV::ConflictingFiles { first_path, second_path } =>
            "Cannot merge two files:\n"@ + first_path + "\nand\n"@ + second_path,
        ProtoErrorV::Other(m) => m,
        ProtoErrorV::NotImplemented(m) => "not yet implemented: "@ + m,
    }
}

impl ProtoError {
    /// An error that carries only a message.
    pub fn new(message: &str) -> (r: ProtoError)
        ensures
            r@ == ProtoErrorV::Other(message@),
    {
        ProtoError::Other(message.to_owned())
    }

    /// The human-readable description of the error.
    pub fn message(&self) -> (r: String)
        ensures
            r@ == error_text(self@),
    {
        let mut s = String::new();
        match self {
            ProtoError::CannotOpenFile(m) => {
                s.append("Cannot open file: ");
                s.append(m.as_str());
            },
            ProtoError::IOError(m) => {
                s.append("IO Error: ");
                s.append(m.as_str());
            },
            ProtoError::UnknownCharacter { file_path, line, column, character } => {
                s.append("Unknown character at ");
                s.append(file_path.as_str());
                s.append(":");
                push_decimal(&mut s, *line as u64);
                s.append(":");
                push_decimal(&mut s, *column as u64);
                s.append(": ");
                push_char(&mut s, *character);
            },
            ProtoError::SyntaxError { file_path, line, column, message } => {
                s.append(file_path.as_str());
                s.append(":");
                push_decimal(&mut s, *line as u64);
                s.append(":");
                push_decimal(&mut s, *column as u64);
                s.append(": SyntaxError: ");
                s.append(message.as_str());
            },
            ProtoError::InvalidIntLiteral { literal, file_path, line, start_column, end_column } => {
                s.append("Invalid integer literal: \"");
                s.append(literal.as_str());
                s.append("\" at ");
                s.append(file_path.as_str());
                s.append(":");
                push_decimal(&mut s, *line as u64);
                s.append(":");
                push_decimal(&mut s, *start_column as u64);
                s.append(" to ");
                push_decimal(&mut s, *end_column as u64);
            },
            ProtoError::UnsupportedProtoVersion(path, version) => {
                s.append("Unsupported proto version: ");
                match version {
                    ProtoVersion::Proto2 => s.append("proto2"),
                    ProtoVersion::Proto3 => s.append("proto3"),
                }
                if path.len() > 0 {
                    s.append(" in package ");
                    push_joined(&mut s, path, ".");
                }
            },
            ProtoError::ConflictingFiles { first_path, second_path } => {
                s.append("Cannot merge two files:\n");
                s.append(first_path.as_str());
                s.append("\nand\n");
                s.append(second_path.as_str());
            },
            ProtoError::Other(m) => {
                s.append(m.as_str());
            },
            ProtoError::NotImplemented(m) => {
                s.append("not yet implemented: ");
                s.append(m.as_str());
            },
        }
        assert(s@ =~= error_text(self@));
        s
    }
}

} // verus!
