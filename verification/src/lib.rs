//! An interpreter for Silm, a scripting language that is read and run line by line.
//!
//! A line begins with a command; what follows is an expression whose kind (`Int`,
//! `Float`, `Str`, `Char`, `Bool` or `Block`) follows from its shape. Values are kept as
//! text in a store of variables. The interpreter prints nothing and reads nothing: every
//! command says what is to be done outside, and the machine is handed what came of it.
//! Neither does it compute with doubles: it asks for what it needs to know of them.

pub mod action;
pub mod arithmetic;
pub mod commands;
pub mod expression;
pub mod functions;
pub mod interpreter;
pub mod machine;
pub mod numerals;
pub mod shunting;
pub mod store;
pub mod text;
pub mod value;
