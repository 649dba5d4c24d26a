pub mod commands;
pub mod common;
pub mod hello;
pub mod ping;
pub mod sequences;
pub mod set_op;
pub mod string_op;
