//! The commands: what each does to the store and asks of whoever runs the interpreter,
//! given the tokens that follow its name on the line.
//!
//! Each command is stated once (`let_of`, `println_of`, ...) and stands twice: on
//! characters, for the interpreter, and on strings (`silm_let`, `silm_println`, ...).

use vstd::prelude::*;
use crate::action::{Action, Effect, complain, report, reported, stop, stopped, texts_of};
use crate::arithmetic::{Answer, Fact, Stop, extends, finished};
use crate::expression::{lemma_value_asks_anew, lemma_value_stays};
use crate::action::asks_for_news;
use crate::expression::{argument_of, enclosed, evaluate, fill, filled, inner, value_of};
use crate::shunting::token_chars;
use crate::store::{assign, assigned, lemma_assign_keeps_valid, valid_store};
use crate::text::{append_text, chars_of, find, join, rfind_char, same_text, slice_of, split};
use crate::text::{find_from, joined, last_index, pieces, tail, text_of, views};
use crate::value::{Binding, DataType, Variable, variable_of};

verus! {

/// `let <name> = <expression>`: binds the value of the expression to the name.
pub open spec fn let_of(
    known: Seq<Answer>,
    store: Seq<Binding>,
    tokens: Seq<Seq<char>>,
    input_name: Seq<char>,
    line_number: int,
) -> (Seq<Binding>, Effect) {
    if tokens.len() < 3 {
        (store, reported(input_name, line_number, "let"@, "improper amount of tokens (!>= 4)"@))
    } else if tokens[1] != "="@ {
        (store, reported(input_name, line_number, "let"@, "assignment operator (=) not found"@))
    } else {
        match value_of(known, store, joined(tokens.skip(2), " "@)) {
            Ok(Some(value)) => (
                assigned(
                    store,
                    Binding { datatype: value.datatype, identifier: tokens[0], value: value.value },
                ),
                Effect::Nothing,
            ),
            Ok(None) => (store, reported(input_name, line_number, "let"@, "empty value given"@)),
            Err(stop) => (store, stopped(stop, input_name, line_number, "let"@)),
        }
    }
}

/// `println (<expression>)`: prints the text of its value, or an empty line where it
/// has none.
pub open spec fn println_of(
    known: Seq<Answer>,
    store: Seq<Binding>,
    tokens: Seq<Seq<char>>,
    input_name: Seq<char>,
    line_number: int,
) -> Effect {
    if tokens.len() == 0 {
        reported(input_name, line_number, "println"@, "no argument provided"@)
    } else {
        match argument_of(tokens) {
            None => reported(
                input_name,
                line_number,
                "println"@,
                "command call does not contain two parantheses"@,
            ),
            Some(argument) => match value_of(known, store, argument) {
                Ok(Some(value)) => Effect::Print(value.value),
                Ok(None) => Effect::Print(Seq::empty()),
                Err(stop) => stopped(stop, input_name, line_number, "println"@),
            },
        }
    }
}

/// `formatln (<expression>)`: prints the text of its value with the text of every binding
/// in place of its placeholder.
pub open spec fn formatln_of(
    known: Seq<Answer>,
    store: Seq<Binding>,
    tokens: Seq<Seq<char>>,
    input_name: Seq<char>,
    line_number: int,
) -> Effect {
    if tokens.len() == 0 {
        reported(input_name, line_number, "formatln"@, "command requires one argument"@)
    } else {
        match argument_of(tokens) {
            None => reported(
                input_name,
                line_number,
                "formatln"@,
                "command call does not contain two parantheses"@,
            ),
            Some(argument) => match value_of(known, store, argument) {
                Ok(Some(value)) => Effect::Print(filled(store, value.value)),
                Ok(None) => reported(
                    input_name,
                    line_number,
                    "formatln"@,
                    "command requires one argument"@,
                ),
                Err(stop) => stopped(stop, input_name, line_number, "formatln"@),
            },
        }
    }
}

/// `readln (<prompt>, <name>)`: asks for a line of input under the prompt, to be bound
/// to the name of the second argument, which has to be a `Str`. The last comma parts the
/// arguments.
pub open spec fn readln_of(
    known: Seq<Answer>,
    store: Seq<Binding>,
    tokens: Seq<Seq<char>>,
    input_name: Seq<char>,
    line_number: int,
) -> Effect {
    if tokens.len() < 2 {
        reported(input_name, line_number, "readln"@, "command requires at least two tokens"@)
    } else {
        match argument_of(tokens) {
            None => reported(
                input_name,
                line_number,
                "readln"@,
                "command call does not contain two parantheses"@,
            ),
            Some(arguments) => match last_index(arguments, ',') {
                None => reported(
                    input_name,
                    line_number,
                    "readln"@,
                    "command requires two arguments"@,
                ),
                Some(k) => match value_of(known, store, arguments.take(k)) {
                    Err(stop) => stopped(stop, input_name, line_number, "readln"@),
                    Ok(None) => reported(
                        input_name,
                        line_number,
                        "readln"@,
                        "first argument not given"@,
                    ),
                    Ok(Some(first)) => match value_of(known, store, arguments.skip(k + 1)) {
                        Err(stop) => stopped(stop, input_name, line_number, "readln"@),
                        Ok(None) => reported(
                            input_name,
                            line_number,
                            "readln"@,
                            "second argument not given"@,
                        ),
                        Ok(Some(second)) => if second.datatype == DataType::Str {
                            Effect::Prompt { prompt: first.value, identifier: second.identifier }
                        } else {
                            reported(
                                input_name,
                                line_number,
                                "readln"@,
                                "invalid type: '"@ + arguments.take(k) + "' must be a str"@,
                            )
                        },
                    },
                },
            },
        }
    }
}

/// `exit ()`: ends the process.
pub open spec fn exit_of(tokens: Seq<Seq<char>>, input_name: Seq<char>, line_number: int)
    -> Effect {
    if tokens.len() == 0 {
        reported(input_name, line_number, "exit"@, "command call requires two parantheses"@)
    } else if tokens[0] == "()"@ {
        Effect::Exit
    } else {
        reported(input_name, line_number, "exit"@, "invalid command call"@)
    }
}

/// The lines of a block body: its parts between the delimiters `\;`, put together with
/// line feeds.
pub open spec fn block_body(code: Seq<char>) -> Seq<char> {
    joined(pieces(code, "\\;"@), "\n"@)
}

/// `block <name> () <body>`: binds the lines of the body to the name, as a `Block`.
pub open spec fn block_of(
    store: Seq<Binding>,
    tokens: Seq<Seq<char>>,
    input_name: Seq<char>,
    line_number: int,
) -> (Seq<Binding>, Effect) {
    if tokens.len() == 0 {
        (store, reported(input_name, line_number, "block"@, "block can not be nameless"@))
    } else if tokens.len() < 2 || tokens[1] != "()"@ {
        (store, reported(input_name, line_number, "block"@, "block must have two parantheses"@))
    } else {
        (
            assigned(
                store,
                Binding {
                    datatype: DataType::Block,
                    identifier: tokens[0],
                    value: block_body(joined(tokens.skip(2), " "@)),
                },
            ),
            Effect::Nothing,
        )
    }
}

/// `interpret (<expression>)` and `import (<expression>)`: ask for the file that the
/// value, a `Str`, names. `origin` is the name of the command.
pub open spec fn load_of(
    known: Seq<Answer>,
    store: Seq<Binding>,
    tokens: Seq<Seq<char>>,
    input_name: Seq<char>,
    line_number: int,
    origin: Seq<char>,
    definitions_only: bool,
) -> Effect {
    if tokens.len() == 0 {
        reported(input_name, line_number, origin, "no argument provided"@)
    } else {
        match argument_of(tokens) {
            None => reported(
                input_name,
                line_number,
                origin,
                "command call does not contain two parantheses"@,
            ),
            Some(argument) => match value_of(known, store, argument) {
                Ok(Some(value)) => if value.datatype == DataType::Str {
                    Effect::Load { name: value.value, definitions_only }
                } else {
                    reported(input_name, line_number, origin, "argument must be a str"@)
                },
                Ok(None) => if definitions_only {
                    reported(input_name, line_number, origin, "command requires one argument"@)
                } else {
                    Effect::Print(Seq::empty())
                },
                Err(stop) => stopped(stop, input_name, line_number, origin),
            },
        }
    }
}

/// `interpret (<expression>)`: asks for the named file, all of whose lines will be run in
/// the current store. Without a value it prints an empty line.
pub open spec fn interpret_of(
    known: Seq<Answer>,
    store: Seq<Binding>,
    tokens: Seq<Seq<char>>,
    input_name: Seq<char>,
    line_number: int,
) -> Effect {
    load_of(known, store, tokens, input_name, line_number, "interpret"@, false)
}

/// `import (<expression>)`: asks for the named file, of whose lines only those that begin
/// with `let` or `block` will be run in the current store.
pub open spec fn import_of(
    known: Seq<Answer>,
    store: Seq<Binding>,
    tokens: Seq<Seq<char>>,
    input_name: Seq<char>,
    line_number: int,
) -> Effect {
    load_of(known, store, tokens, input_name, line_number, "import"@, true)
}

/// `eval (<expression>)`: has the text of the value, a `Str`, run as a line in the
/// current store.
pub open spec fn eval_of(
    known: Seq<Answer>,
    store: Seq<Binding>,
    tokens: Seq<Seq<char>>,
    input_name: Seq<char>,
    line_number: int,
) -> Effect {
    if tokens.len() == 0 {
        reported(input_name, line_number, "eval"@, "no argument provided"@)
    } else {
        match argument_of(tokens) {
            None => reported(
                input_name,
                line_number,
                "eval"@,
                "command call does not contain two parantheses"@,
            ),
            Some(argument) => match value_of(known, store, argument) {
                Ok(Some(value)) => if value.datatype == DataType::Str {
                    Effect::Run(seq![value.value])
                } else {
                    reported(input_name, line_number, "eval"@, "argument must be a str"@)
                },
                Ok(None) => reported(
                    input_name,
                    line_number,
                    "eval"@,
                    "command requires one argument"@,
                ),
                Err(stop) => stopped(stop, input_name, line_number, "eval"@),
            },
        }
    }
}

/// `if (<condition>) :: <then>`: where the condition, a `Bool`, is true, has the parts of
/// `<then>` between the delimiters `\;` run as lines in the current store. The first
/// ` :: ` ends the condition.
pub open spec fn if_of(
    known: Seq<Answer>,
    store: Seq<Binding>,
    tokens: Seq<Seq<char>>,
    input_name: Seq<char>,
    line_number: int,
) -> Effect {
    let arguments = joined(tokens, " "@);
    if tokens.len() == 0 {
        reported(input_name, line_number, "if"@, "no condition provided"@)
    } else {
        match find_from(arguments, 0, " :: "@) {
            None => reported(input_name, line_number, "if"@, "no condition-bound code provided"@),
            Some(k) => {
                let condition = arguments.take(k);
                let then = arguments.skip(k + " :: "@.len());
                if !enclosed(condition, '(', ')') {
                    reported(
                        input_name,
                        line_number,
                        "if"@,
                        "command condition must contain two parantheses"@,
                    )
                } else {
                    match value_of(known, store, inner(condition)) {
                        Err(stop) => stopped(stop, input_name, line_number, "if"@),
                        Ok(None) => Effect::Nothing,
                        Ok(Some(value)) => if value.datatype != DataType::Bool {
                            reported(
                                input_name,
                                line_number,
                                "if"@,
                                "condition must be of type bool"@,
                            )
                        } else if value.value == "true"@ {
                            Effect::Run(pieces(then, "\\;"@))
                        } else {
                            Effect::Nothing
                        },
                    }
                }
            },
        }
    }
}

fn parenthesised(tokens: &Vec<Vec<char>>) -> (r: Option<Vec<char>>)
    ensures
        match r {
            Some(argument) => argument_of(views(tokens@)) == Some(argument@),
            None => argument_of(views(tokens@)) is None,
        },
{
    let text = join(tokens, &chars_of(" "));
    if text.len() > 0 && text[0] == '(' && text[text.len() - 1] == ')' {
        Some(slice_of(&text, 1, text.len() - 1))
    } else {
        None
    }
}

/// `let`, on the tokens that follow it.
pub(crate) fn let_command(
    tokens: &Vec<Vec<char>>,
    input_name: &Vec<char>,
    line_number: i32,
    variables: &mut Vec<Variable>,
    known: &[Fact],
) -> (action: Action)
    ensures
        (views(final(variables)@), action@) == let_of(
            views(known@),
            views(old(variables)@),
            views(tokens@),
            input_name@,
            line_number as int,
        ),
{
    if tokens.len() < 3 {
        return complain(input_name, line_number, "let", "improper amount of tokens (!>= 4)");
    }
    if !same_text(&tokens[1], &chars_of("=")) {
        return complain(input_name, line_number, "let", "assignment operator (=) not found");
    }
    let expression = join(&tail(tokens, 2), &chars_of(" "));
    match evaluate(&expression, variables.as_slice(), known) {
        Ok(Some(value)) => {
            let bound = Variable {
                datatype: value.datatype,
                identifier: text_of(&tokens[0]),
                value: value.value,
            };
            assign(bound, variables);
            Action::Nothing
        },
        Ok(None) => complain(input_name, line_number, "let", "empty value given"),
        Err(halt) => stop(halt, input_name, line_number, "let"),
    }
}

/// `println`, on the tokens that follow it.
pub(crate) fn println_command(
    tokens: &Vec<Vec<char>>,
    input_name: &Vec<char>,
    line_number: i32,
    variables: &[Variable],
    known: &[Fact],
) -> (action: Action)
    ensures
        action@ == println_of(
            views(known@),
            views(variables@),
            views(tokens@),
            input_name@,
            line_number as int,
        ),
{
    if tokens.len() == 0 {
        return complain(input_name, line_number, "println", "no argument provided");
    }
    match parenthesised(tokens) {
        None => complain(
            input_name,
            line_number,
            "println",
            "command call does not contain two parantheses",
        ),
        Some(argument) => match evaluate(&argument, variables, known) {
            Ok(Some(value)) => Action::Print(value.value),
            Ok(None) => Action::Print(String::new()),
            Err(halt) => stop(halt, input_name, line_number, "println"),
        },
    }
}

/// `formatln`, on the tokens that follow it.
pub(crate) fn formatln_command(
    tokens: &Vec<Vec<char>>,
    input_name: &Vec<char>,
    line_number: i32,
    variables: &[Variable],
    known: &[Fact],
) -> (action: Action)
    ensures
        action@ == formatln_of(
            views(known@),
            views(variables@),
            views(tokens@),
            input_name@,
            line_number as int,
        ),
{
    if tokens.len() == 0 {
        return complain(input_name, line_number, "formatln", "command requires one argument");
    }
    match parenthesised(tokens) {
        None => complain(
            input_name,
            line_number,
            "formatln",
            "command call does not contain two parantheses",
        ),
        Some(argument) => match evaluate(&argument, variables, known) {
            Ok(Some(value)) => Action::Print(
                text_of(&fill(variables, chars_of(value.value.as_str()))),
            ),
            Ok(None) => complain(
                input_name,
                line_number,
                "formatln",
                "command requires one argument",
            ),
            Err(halt) => stop(halt, input_name, line_number, "formatln"),
        },
    }
}

/// `readln`, on the tokens that follow it.
pub(crate) fn readln_command(
    tokens: &Vec<Vec<char>>,
    input_name: &Vec<char>,
    line_number: i32,
    variables: &[Variable],
    known: &[Fact],
) -> (action: Action)
    ensures
        action@ == readln_of(
            views(known@),
            views(variables@),
            views(tokens@),
            input_name@,
            line_number as int,
        ),
{
    if tokens.len() < 2 {
        return complain(input_name, line_number, "readln", "command requires at least two tokens");
    }
    let arguments = match parenthesised(tokens) {
        None => {
            return complain(
                input_name,
                line_number,
                "readln",
                "command call does not contain two parantheses",
            );
        },
        Some(arguments) => arguments,
    };
    let k = match rfind_char(&arguments, ',') {
        None => {
            return complain(input_name, line_number, "readln", "command requires two arguments");
        },
        Some(k) => k,
    };
    let first_text = slice_of(&arguments, 0, k);
    let second_text = slice_of(&arguments, k + 1, arguments.len());
    assert(first_text@ =~= arguments@.take(k as int));
    assert(second_text@ =~= arguments@.skip(k + 1));
    let first = match evaluate(&first_text, variables, known) {
        Err(halt) => {
            return stop(halt, input_name, line_number, "readln");
        },
        Ok(None) => {
            return complain(input_name, line_number, "readln", "first argument not given");
        },
        Ok(Some(first)) => first,
    };
    match evaluate(&second_text, variables, known) {
        Err(halt) => stop(halt, input_name, line_number, "readln"),
        Ok(None) => complain(input_name, line_number, "readln", "second argument not given"),
        Ok(Some(second)) => {
            if second.datatype == DataType::Str {
                Action::Prompt { prompt: first.value, identifier: second.identifier }
            } else {
                let mut message = chars_of("invalid type: '");
                append_text(&mut message, &first_text);
                append_text(&mut message, &chars_of("' must be a str"));
                report(input_name, line_number, "readln", &message)
            }
        },
    }
}

/// `exit`, on the tokens that follow it.
pub(crate) fn exit_command(tokens: &Vec<Vec<char>>, input_name: &Vec<char>, line_number: i32) -> (action:
    Action)
    ensures
        action@ == exit_of(views(tokens@), input_name@, line_number as int),
{
    if tokens.len() == 0 {
        complain(input_name, line_number, "exit", "command call requires two parantheses")
    } else if same_text(&tokens[0], &chars_of("()")) {
        Action::Exit
    } else {
        complain(input_name, line_number, "exit", "invalid command call")
    }
}

/// `block`, on the tokens that follow it.
pub(crate) fn block_command(
    tokens: &Vec<Vec<char>>,
    input_name: &Vec<char>,
    line_number: i32,
    variables: &mut Vec<Variable>,
) -> (action: Action)
    ensures
        (views(final(variables)@), action@) == block_of(
            views(old(variables)@),
            views(tokens@),
            input_name@,
            line_number as int,
        ),
{
    if tokens.len() == 0 {
        return complain(input_name, line_number, "block", "block can not be nameless");
    }
    if tokens.len() < 2 || !same_text(&tokens[1], &chars_of("()")) {
        return complain(input_name, line_number, "block", "block must have two parantheses");
    }
    let code = join(&tail(tokens, 2), &chars_of(" "));
    let body = join(&split(&code, &chars_of("\\;")), &chars_of("\n"));
    assign(variable_of(DataType::Block, &tokens[0], &body), variables);
    Action::Nothing
}

fn load_command(
    tokens: &Vec<Vec<char>>,
    input_name: &Vec<char>,
    line_number: i32,
    variables: &[Variable],
    known: &[Fact],
    origin: &str,
    definitions_only: bool,
) -> (action: Action)
    ensures
        action@ == load_of(
            views(known@),
            views(variables@),
            views(tokens@),
            input_name@,
            line_number as int,
            origin@,
            definitions_only,
        ),
{
    if tokens.len() == 0 {
        return complain(input_name, line_number, origin, "no argument provided");
    }
    match parenthesised(tokens) {
        None => complain(
            input_name,
            line_number,
            origin,
            "command call does not contain two parantheses",
        ),
        Some(argument) => match evaluate(&argument, variables, known) {
            Ok(Some(value)) => {
                if value.datatype == DataType::Str {
                    Action::Load { name: value.value, definitions_only }
                } else {
                    complain(input_name, line_number, origin, "argument must be a str")
                }
            },
            Ok(None) => {
                if definitions_only {
                    complain(input_name, line_number, origin, "command requires one argument")
                } else {
                    Action::Print(String::new())
                }
            },
            Err(halt) => stop(halt, input_name, line_number, origin),
        },
    }
}

/// `interpret`, on the tokens that follow it.
pub(crate) fn interpret_command(
    tokens: &Vec<Vec<char>>,
    input_name: &Vec<char>,
    line_number: i32,
    variables: &[Variable],
    known: &[Fact],
) -> (action: Action)
    ensures
        action@ == interpret_of(
            views(known@),
            views(variables@),
            views(tokens@),
            input_name@,
            line_number as int,
        ),
{
    load_command(tokens, input_name, line_number, variables, known, "interpret", false)
}

/// `import`, on the tokens that follow it.
pub(crate) fn import_command(
    tokens: &Vec<Vec<char>>,
    input_name: &Vec<char>,
    line_number: i32,
    variables: &[Variable],
    known: &[Fact],
) -> (action: Action)
    ensures
        action@ == import_of(
            views(known@),
            views(variables@),
            views(tokens@),
            input_name@,
            line_number as int,
        ),
{
    load_command(tokens, input_name, line_number, variables, known, "import", true)
}

/// `eval`, on the tokens that follow it.
pub(crate) fn eval_command(
    tokens: &Vec<Vec<char>>,
    input_name: &Vec<char>,
    line_number: i32,
    variables: &[Variable],
    known: &[Fact],
) -> (action: Action)
    ensures
        action@ == eval_of(
            views(known@),
            views(variables@),
            views(tokens@),
            input_name@,
            line_number as int,
        ),
{
    if tokens.len() == 0 {
        return complain(input_name, line_number, "eval", "no argument provided");
    }
    match parenthesised(tokens) {
        None => complain(
            input_name,
            line_number,
            "eval",
            "command call does not contain two parantheses",
        ),
        Some(argument) => match evaluate(&argument, variables, known) {
            Ok(Some(value)) => {
                if value.datatype == DataType::Str {
                    let ghost text = value.value@;
                    let mut lines: Vec<String> = Vec::new();
                    lines.push(value.value);
                    assert(views(lines@) =~= seq![text]);
                    Action::Run(lines)
                } else {
                    complain(input_name, line_number, "eval", "argument must be a str")
                }
            },
            Ok(None) => complain(input_name, line_number, "eval", "command requires one argument"),
            Err(halt) => stop(halt, input_name, line_number, "eval"),
        },
    }
}

/// `if`, on the tokens that follow it.
pub(crate) fn if_command(
    tokens: &Vec<Vec<char>>,
    input_name: &Vec<char>,
    line_number: i32,
    variables: &[Variable],
    known: &[Fact],
) -> (action: Action)
    ensures
        action@ == if_of(
            views(known@),
            views(variables@),
            views(tokens@),
            input_name@,
            line_number as int,
        ),
{
    if tokens.len() == 0 {
        return complain(input_name, line_number, "if", "no condition provided");
    }
    let arguments = join(tokens, &chars_of(" "));
    let separator = chars_of(" :: ");
    let k = match find(&arguments, &separator) {
        None => {
            return complain(input_name, line_number, "if", "no condition-bound code provided");
        },
        Some(k) => k,
    };
    let condition = slice_of(&arguments, 0, k);
    let then = slice_of(&arguments, k + separator.len(), arguments.len());
    assert(condition@ =~= arguments@.take(k as int));
    assert(then@ =~= arguments@.skip(k + " :: "@.len()));
    if !(condition.len() > 0 && condition[0] == '(' && condition[condition.len() - 1] == ')') {
        return complain(
            input_name,
            line_number,
            "if",
            "command condition must contain two parantheses",
        );
    }
    let expression = slice_of(&condition, 1, condition.len() - 1);
    match evaluate(&expression, variables, known) {
        Err(halt) => stop(halt, input_name, line_number, "if"),
        Ok(None) => Action::Nothing,
        Ok(Some(value)) => {
            if value.datatype != DataType::Bool {
                complain(input_name, line_number, "if", "condition must be of type bool")
            } else if same_text(&chars_of(value.value.as_str()), &chars_of("true")) {
                Action::Run(texts_of(&split(&then, &chars_of("\\;"))))
            } else {
                Action::Nothing
            }
        },
    }
}


/// `let <name> = <expression>`: binds the value of the expression to the name. A failure
/// is reported and leaves the store as it is.
pub fn silm_let(
    tokens: Vec<&str>,
    input_name: String,
    line_number: i32,
    variables: &mut Vec<Variable>,
    known: &[Fact],
) -> (action: Action)
    ensures
        (views(final(variables)@), action@) == let_of(
            views(known@),
            views(old(variables)@),
            views(tokens@),
            input_name@,
            line_number as int,
        ),
{
    let_command(&token_chars(&tokens), &chars_of(input_name.as_str()), line_number, variables, known)
}

/// `println (<expression>)`: has the text of the value printed, or an empty line where
/// there is no value.
pub fn silm_println(
    tokens: Vec<&str>,
    input_name: String,
    line_number: i32,
    variables: &[Variable],
    known: &[Fact],
) -> (action: Action)
    ensures
        action@ == println_of(
            views(known@),
            views(variables@),
            views(tokens@),
            input_name@,
            line_number as int,
        ),
{
    println_command(&token_chars(&tokens), &chars_of(input_name.as_str()), line_number, variables, known)
}

/// `formatln (<expression>)`: has the text of the value printed, with the text of every
/// binding in place of its placeholder.
pub fn silm_formatln(
    tokens: Vec<&str>,
    input_name: String,
    line_number: i32,
    variables: &[Variable],
    known: &[Fact],
) -> (action: Action)
    ensures
        action@ == formatln_of(
            views(known@),
            views(variables@),
            views(tokens@),
            input_name@,
            line_number as int,
        ),
{
    formatln_command(&token_chars(&tokens), &chars_of(input_name.as_str()), line_number, variables, known)
}

/// `readln (<prompt>, <name>)`: asks for a line of input under the prompt. The line is
/// to be bound to the name of the second argument, which has to be a `Str`.
pub fn silm_readln(
    tokens: Vec<&str>,
    input_name: String,
    line_number: i32,
    variables: &[Variable],
    known: &[Fact],
) -> (action: Action)
    ensures
        action@ == readln_of(
            views(known@),
            views(variables@),
            views(tokens@),
            input_name@,
            line_number as int,
        ),
{
    readln_command(&token_chars(&tokens), &chars_of(input_name.as_str()), line_number, variables, known)
}

/// `exit ()`: asks for the process to end.
pub fn silm_exit(
    tokens: Vec<&str>,
    input_name: String,
    line_number: i32,
) -> (action: Action)
    ensures
        action@ == exit_of(
            views(tokens@),
            input_name@,
            line_number as int,
        ),
{
    exit_command(&token_chars(&tokens), &chars_of(input_name.as_str()), line_number)
}

/// `block <name> () <body>`: binds the lines of the body to the name, as a `Block`. The
/// lines are the parts of the body between the delimiters `\;`.
pub fn silm_block(
    tokens: Vec<&str>,
    input_name: String,
    line_number: i32,
    variables: &mut Vec<Variable>,
) -> (action: Action)
    ensures
        (views(final(variables)@), action@) == block_of(
            views(old(variables)@),
            views(tokens@),
            input_name@,
            line_number as int,
        ),
{
    block_command(&token_chars(&tokens), &chars_of(input_name.as_str()), line_number, variables)
}

/// `interpret (<expression>)`: asks for the file that the value, a `Str`, names. All of
/// its lines are to be run in the current store.
pub fn silm_interpret(
    tokens: Vec<&str>,
    input_name: String,
    line_number: i32,
    variables: &[Variable],
    known: &[Fact],
) -> (action: Action)
    ensures
        action@ == interpret_of(
            views(known@),
            views(variables@),
            views(tokens@),
            input_name@,
            line_number as int,
        ),
{
    interpret_command(&token_chars(&tokens), &chars_of(input_name.as_str()), line_number, variables, known)
}

/// `eval (<expression>)`: has the text of the value, a `Str`, run as a line in the
/// current store.
pub fn silm_eval(
    tokens: Vec<&str>,
    input_name: String,
    line_number: i32,
    variables: &[Variable],
    known: &[Fact],
) -> (action: Action)
    ensures
        action@ == eval_of(
            views(known@),
            views(variables@),
            views(tokens@),
            input_name@,
            line_number as int,
        ),
{
    eval_command(&token_chars(&tokens), &chars_of(input_name.as_str()), line_number, variables, known)
}

/// `import (<expression>)`: asks for the file that the value, a `Str`, names. Of its
/// lines only those that begin with `let` or `block` are to be run in the current store.
pub fn silm_import(
    tokens: Vec<&str>,
    input_name: String,
    line_number: i32,
    variables: &[Variable],
    known: &[Fact],
) -> (action: Action)
    ensures
        action@ == import_of(
            views(known@),
            views(variables@),
            views(tokens@),
            input_name@,
            line_number as int,
        ),
{
    import_command(&token_chars(&tokens), &chars_of(input_name.as_str()), line_number, variables, known)
}

/// `if (<condition>) :: <then>`: where the condition is true, has the parts of `<then>`
/// between the delimiters `\;` run as lines in the current store.
pub fn silm_if(
    tokens: Vec<&str>,
    input_name: String,
    line_number: i32,
    variables: &[Variable],
    known: &[Fact],
) -> (action: Action)
    ensures
        action@ == if_of(
            views(known@),
            views(variables@),
            views(tokens@),
            input_name@,
            line_number as int,
        ),
{
    if_command(&token_chars(&tokens), &chars_of(input_name.as_str()), line_number, variables, known)
}


/// `let` and `block` leave a store that is as it should be so.
pub proof fn lemma_definitions_keep_valid(
    known: Seq<Answer>,
    store: Seq<Binding>,
    tokens: Seq<Seq<char>>,
    input_name: Seq<char>,
    line_number: int,
)
    requires
        valid_store(store),
    ensures
        valid_store(let_of(known, store, tokens, input_name, line_number).0),
        valid_store(block_of(store, tokens, input_name, line_number).0),
{
    if tokens.len() >= 3 && tokens[1] == "="@ {
        let data = joined(tokens.skip(2), " "@);
        crate::expression::lemma_value_agrees(known, store, data);
        match value_of(known, store, data) {
            Ok(Some(value)) => {
                lemma_assign_keeps_valid(
                    store,
                    Binding { datatype: value.datatype, identifier: tokens[0], value: value.value },
                );
            },
            _ => {},
        }
    }
    if tokens.len() >= 2 && tokens[1] == "()"@ {
        lemma_assign_keeps_valid(
            store,
            Binding {
                datatype: DataType::Block,
                identifier: tokens[0],
                value: block_body(joined(tokens.skip(2), " "@)),
            },
        );
    }
}


/// `readln` with fewer than two arguments is reported with a message of its own, whatever
/// the store holds: with fewer than two tokens, and with no comma between the parentheses.
pub proof fn lemma_readln_needs_two_arguments(
    known: Seq<Answer>,
    store: Seq<Binding>,
    tokens: Seq<Seq<char>>,
    input_name: Seq<char>,
    line_number: int,
)
    ensures
        tokens.len() < 2 ==> readln_of(known, store, tokens, input_name, line_number) == reported(
            input_name,
            line_number,
            "readln"@,
            "command requires at least two tokens"@,
        ),
        tokens.len() >= 2 && argument_of(tokens) is Some && !argument_of(tokens).unwrap().contains(
            ',',
        ) ==> readln_of(known, store, tokens, input_name, line_number) == reported(
            input_name,
            line_number,
            "readln"@,
            "command requires two arguments"@,
        ),
{
    if argument_of(tokens) is Some {
        let arguments = argument_of(tokens).unwrap();
        crate::text::lemma_last_below(arguments, ',', arguments.len() as int);
    }
}

/// Whatever `readln` is given, it asks for a line, asks for a fact about doubles, or
/// reports a failure: it does nothing else.
pub proof fn lemma_readln_is_harmless(
    known: Seq<Answer>,
    store: Seq<Binding>,
    tokens: Seq<Seq<char>>,
    input_name: Seq<char>,
    line_number: int,
)
    ensures
        ({
            let effect = readln_of(known, store, tokens, input_name, line_number);
            effect is Prompt || effect is Needs || effect is Print
        }),
{
}


/// A command that did not ask for a fact about doubles does the same when facts are
/// added to those known.
pub proof fn lemma_commands_stay(
    known: Seq<Answer>,
    more: Seq<Answer>,
    store: Seq<Binding>,
    tokens: Seq<Seq<char>>,
    input_name: Seq<char>,
    line_number: int,
)
    requires
        extends(more, known),
    ensures
        !(let_of(known, store, tokens, input_name, line_number).1 is Needs) ==> let_of(
            more,
            store,
            tokens,
            input_name,
            line_number,
        ) == let_of(known, store, tokens, input_name, line_number),
        !(println_of(known, store, tokens, input_name, line_number) is Needs) ==> println_of(
            more,
            store,
            tokens,
            input_name,
            line_number,
        ) == println_of(known, store, tokens, input_name, line_number),
        !(formatln_of(known, store, tokens, input_name, line_number) is Needs) ==> formatln_of(
            more,
            store,
            tokens,
            input_name,
            line_number,
        ) == formatln_of(known, store, tokens, input_name, line_number),
        !(readln_of(known, store, tokens, input_name, line_number) is Needs) ==> readln_of(
            more,
            store,
            tokens,
            input_name,
            line_number,
        ) == readln_of(known, store, tokens, input_name, line_number),
        !(interpret_of(known, store, tokens, input_name, line_number) is Needs) ==> interpret_of(
            more,
            store,
            tokens,
            input_name,
            line_number,
        ) == interpret_of(known, store, tokens, input_name, line_number),
        !(import_of(known, store, tokens, input_name, line_number) is Needs) ==> import_of(
            more,
            store,
            tokens,
            input_name,
            line_number,
        ) == import_of(known, store, tokens, input_name, line_number),
        !(eval_of(known, store, tokens, input_name, line_number) is Needs) ==> eval_of(
            more,
            store,
            tokens,
            input_name,
            line_number,
        ) == eval_of(known, store, tokens, input_name, line_number),
        !(if_of(known, store, tokens, input_name, line_number) is Needs) ==> if_of(
            more,
            store,
            tokens,
            input_name,
            line_number,
        ) == if_of(known, store, tokens, input_name, line_number),
{
    if tokens.len() >= 3 && tokens[1] == "="@ {
        let data = joined(tokens.skip(2), " "@);
        if finished(value_of(known, store, data)) {
            lemma_value_stays(known, more, store, data);
        }
    }
    match argument_of(tokens) {
        Some(argument) => {
            if finished(value_of(known, store, argument)) {
                lemma_value_stays(known, more, store, argument);
            }
            match last_index(argument, ',') {
                Some(k) => {
                    if finished(value_of(known, store, argument.take(k))) {
                        lemma_value_stays(known, more, store, argument.take(k));
                    }
                    if finished(value_of(known, store, argument.skip(k + 1))) {
                        lemma_value_stays(known, more, store, argument.skip(k + 1));
                    }
                },
                None => {},
            }
        },
        None => {},
    }
    match find_from(joined(tokens, " "@), 0, " :: "@) {
        Some(k) => {
            let condition = inner(joined(tokens, " "@).take(k));
            if finished(value_of(known, store, condition)) {
                lemma_value_stays(known, more, store, condition);
            }
        },
        None => {},
    }
}


/// A command asks only for a fact about doubles that is not known.
pub proof fn lemma_commands_ask_for_news(
    known: Seq<Answer>,
    store: Seq<Binding>,
    tokens: Seq<Seq<char>>,
    input_name: Seq<char>,
    line_number: int,
)
    ensures
        asks_for_news(known, let_of(known, store, tokens, input_name, line_number).1),
        asks_for_news(known, println_of(known, store, tokens, input_name, line_number)),
        asks_for_news(known, formatln_of(known, store, tokens, input_name, line_number)),
        asks_for_news(known, readln_of(known, store, tokens, input_name, line_number)),
        asks_for_news(known, interpret_of(known, store, tokens, input_name, line_number)),
        asks_for_news(known, import_of(known, store, tokens, input_name, line_number)),
        asks_for_news(known, eval_of(known, store, tokens, input_name, line_number)),
        asks_for_news(known, if_of(known, store, tokens, input_name, line_number)),
        asks_for_news(known, block_of(store, tokens, input_name, line_number).1),
        asks_for_news(known, exit_of(tokens, input_name, line_number)),
{
    if tokens.len() >= 3 {
        lemma_value_asks_anew(known, store, joined(tokens.skip(2), " "@));
    }
    match argument_of(tokens) {
        Some(argument) => {
            lemma_value_asks_anew(known, store, argument);
            match last_index(argument, ',') {
                Some(k) => {
                    lemma_value_asks_anew(known, store, argument.take(k));
                    lemma_value_asks_anew(known, store, argument.skip(k + 1));
                },
                None => {},
            }
        },
        None => {},
    }
    match find_from(joined(tokens, " "@), 0, " :: "@) {
        Some(k) => {
            lemma_value_asks_anew(known, store, inner(joined(tokens, " "@).take(k)));
        },
        None => {},
    }
}

} // verus!
