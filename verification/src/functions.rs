//! The evaluator of expressions and the built-in functions, on strings. What they compute
//! is stated in `expression`.

use vstd::prelude::*;
use crate::arithmetic::{Fact, Halt, outcome};
use crate::expression::{call, call_outcome, called, eq_of, equal, evaluate, format_of};
use crate::expression::{format_text, name_of, nameof_of, ne_of, type_of, typeof_of, unequal};
use crate::expression::{value_of, value_outcome};
use crate::shunting::token_chars;
use crate::text::{chars_of, views};
use crate::value::Variable;

verus! {

/// Evaluates a piece of text in the store.
///
/// Returns no value for empty text, the value that the text stands for, or the message
/// that refuses it. Where the value depends on a fact about doubles that is not among
/// those known, the first such fact is asked for.
pub fn extract_data(data: &str, variables: &[Variable], known: &[Fact]) -> (r: Result<
    Option<Variable>,
    Halt,
>)
    ensures
        value_outcome(r) == value_of(views(known@), views(variables@), data@),
{
    evaluate(&chars_of(data), variables, known)
}

/// Calls the built-in function that `name` names, if it names one, on the tokens that
/// follow the name. A failure comes back under the name of the function.
pub fn call_function(name: &str, tokens: Vec<&str>, variables: &[Variable], known: &[Fact]) -> (r:
    Option<Result<Variable, Halt>>)
    ensures
        call_outcome(r) == called(views(known@), views(variables@), name@, views(tokens@)),
{
    call(&chars_of(name), &token_chars(&tokens), variables, known)
}

/// `typeof (e)`: a `Str` that holds the name of the kind of `e`.
pub fn silm_typeof(tokens: Vec<&str>, variables: &[Variable], known: &[Fact]) -> (r: Result<
    Variable,
    Halt,
>)
    ensures
        outcome(r) == typeof_of(views(known@), views(variables@), views(tokens@)),
{
    type_of(&token_chars(&tokens), variables, known)
}

/// `nameof (e)`: a `Str` that holds the name that the value of `e` is bound to.
pub fn silm_nameof(tokens: Vec<&str>, variables: &[Variable], known: &[Fact]) -> (r: Result<
    Variable,
    Halt,
>)
    ensures
        outcome(r) == nameof_of(views(known@), views(variables@), views(tokens@)),
{
    name_of(&token_chars(&tokens), variables, known)
}

/// `eq (a, b)`: a `Bool` that says whether `a` and `b` are of one kind and hold the
/// same text.
pub fn silm_eq(tokens: Vec<&str>, variables: &[Variable], known: &[Fact]) -> (r: Result<
    Variable,
    Halt,
>)
    ensures
        outcome(r) == eq_of(views(known@), views(variables@), views(tokens@)),
{
    equal(&token_chars(&tokens), variables, known)
}

/// `ne (a, b)`: a `Bool` that says whether `a` and `b` differ in kind or in text.
pub fn silm_ne(tokens: Vec<&str>, variables: &[Variable], known: &[Fact]) -> (r: Result<
    Variable,
    Halt,
>)
    ensures
        outcome(r) == ne_of(views(known@), views(variables@), views(tokens@)),
{
    unequal(&token_chars(&tokens), variables, known)
}

/// `format (t)`: a `Str` that holds the text of `t` with the text of every binding in
/// place of its placeholder.
pub fn silm_format(tokens: Vec<&str>, variables: &[Variable], known: &[Fact]) -> (r: Result<
    Variable,
    Halt,
>)
    ensures
        outcome(r) == format_of(views(known@), views(variables@), views(tokens@)),
{
    format_text(&token_chars(&tokens), variables, known)
}

} // verus!
