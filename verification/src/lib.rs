//! Boon language front end: parser, resolver, shape inference and graph compiler.
pub mod dd;
pub mod hir;
pub mod parser;
pub mod strmap;
pub mod syntax;
pub mod text;
pub mod toplevel;
pub mod shape;
pub mod compiler;
pub mod backends;
pub mod examples;
pub mod scenario;
pub mod png;
pub mod font;
pub mod literal;
pub mod fold;
pub mod host;
pub mod codegen;
pub mod tasks;
pub mod playground;
pub mod json;
pub mod reports;
