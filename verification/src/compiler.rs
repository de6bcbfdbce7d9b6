//! Compilation of resolved schemas into TypeScript modules.
pub mod ast;
pub mod names;
pub mod render;
pub mod ts_path;
pub mod imports;
pub mod constants;
pub mod types_compiler;
pub mod decode_compiler;
pub mod encode_compiler;
pub mod folders;
