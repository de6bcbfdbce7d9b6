//! Compiler of protocol buffer schemas into TypeScript modules.
#![allow(unused_imports)]

pub mod text;
pub mod error;
pub mod package;
pub mod lexems;
pub mod id_generator;
pub mod syntax;
pub mod protopath;
pub mod proto_scope;
pub mod scope_builder;
pub mod compiler;
pub mod laws;
pub mod reader;
pub mod well_known;
pub mod package_tree;
pub mod block_scope;
pub mod schema_text;
