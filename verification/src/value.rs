//! Values: a kind, the text that renders the value, and the name it is bound to.

use vstd::prelude::*;
use crate::text::{chars_of, text_of};

verus! {

/// The kind of a value.
#[derive(Debug, Clone, Copy, PartialEq, Eq, Structural)]
pub enum DataType {
    Int,
    Float,
    Str,
    Char,
    Bool,
    Block,
}

/// A value under a name. The value is kept as text and read again whenever it is needed.
#[derive(Debug, Clone, PartialEq)]
pub struct Variable {
    pub datatype: DataType,
    pub identifier: String,
    pub value: String,
}

/// What a `Variable` stands for.
pub ghost struct Binding {
    pub datatype: DataType,
    pub identifier: Seq<char>,
    pub value: Seq<char>,
}

impl View for Variable {
    type V = Binding;

    open spec fn view(&self) -> Binding {
        Binding { datatype: self.datatype, identifier: self.identifier@, value: self.value@ }
    }
}

/// The name of a value that is bound to no variable: a literal, or the result of arithmetic.
pub open spec fn unbound() -> Seq<char> {
    "$uninitialised$"@
}

/// The name of a value that a built-in function returned.
pub open spec fn returned() -> Seq<char> {
    "$returned$"@
}

/// The name of a kind.
pub open spec fn kind_name(datatype: DataType) -> Seq<char> {
    match datatype {
        DataType::Bool => "bool"@,
        DataType::Float => "float"@,
        DataType::Int => "int"@,
        DataType::Str => "str"@,
        DataType::Char => "char"@,
        DataType::Block => "block"@,
    }
}

/// The name of a kind: `"int"`, `"float"`, `"str"`, `"char"`, `"bool"` or `"block"`.
pub fn represent_datatype(datatype: DataType) -> (name: &'static str)
    ensures
        name@ == kind_name(datatype),
{
    match datatype {
        DataType::Bool => "bool",
        DataType::Float => "float",
        DataType::Int => "int",
        DataType::Str => "str",
        DataType::Char => "char",
        DataType::Block => "block",
    }
}

/// The text that renders a value: the text it holds.
pub fn render(value: &Variable) -> (out: String)
    ensures
        out@ == value@.value,
{
    value.value.clone()
}

/// The characters of the name of a value that is bound to no variable.
pub(crate) fn unbound_name() -> (out: Vec<char>)
    ensures
        out@ == unbound(),
{
    chars_of("$uninitialised$")
}

/// The characters of the name of a value that a built-in function returned.
pub(crate) fn returned_name() -> (out: Vec<char>)
    ensures
        out@ == returned(),
{
    chars_of("$returned$")
}

/// The variable that holds the given kind, name and text.
pub(crate) fn variable_of(datatype: DataType, identifier: &Vec<char>, value: &Vec<char>) -> (out:
    Variable)
    ensures
        out@ == (Binding { datatype, identifier: identifier@, value: value@ }),
{
    Variable { datatype, identifier: text_of(identifier), value: text_of(value) }
}

/// Whether the kind of a value and its text agree: a `Bool` holds `true` or `false`, a
/// `Char` at most one character, an `Int` the numeral of a 32-bit integer.
pub open spec fn agrees(binding: Binding) -> bool {
    match binding.datatype {
        DataType::Bool => binding.value == "true"@ || binding.value == "false"@,
        DataType::Char => binding.value.len() <= 1,
        DataType::Int => crate::numerals::int_of(binding.value) is Some,
        _ => true,
    }
}

} // verus!
