//! Front end of the `plat` scripting language: a lossless fragment scanner,
//! a token builder and the two grammars that read a command script or a
//! field schema, each stage with a contract over a mathematical model of
//! what it returns.

pub mod collection;
pub mod commands;
pub mod environment;
pub mod error;
pub mod fragment;
pub mod node;
pub mod pipeline;
pub mod position;
pub mod text;
pub mod token;
pub mod value;
