//! One line of source text: which command it holds, and what that command does.

use vstd::prelude::*;
use crate::action::{Action, Effect, complain, reported, texts_of};
use crate::arithmetic::{Answer, Fact};
use crate::commands::{block_command, block_of, eval_command, eval_of, exit_command, exit_of};
use crate::commands::{formatln_command, formatln_of, if_command, if_of, import_command};
use crate::commands::{import_of, interpret_command, interpret_of, let_command, let_of};
use crate::commands::{println_command, println_of, readln_command, readln_of};
use crate::numerals::{int_text, render_int};
use crate::store::{assign, assigned, get_variable, lookup};
use crate::store::{lemma_assign_keeps_valid, lemma_assign_lookup, lemma_assign_same, valid_store};
use crate::commands::lemma_definitions_keep_valid;
use crate::text::{append_text, chars_of, join, lines, same_text, split_whitespace, tail};
use crate::text::{joined, lines_of, text_of, trim, trimmed, views, words};
use crate::value::{Binding, DataType, Variable, variable_of};

verus! {

/// The version of the language, which every line finds bound to `$version$`.
pub const VERSION: &'static str = "0.1.0";

/// The store after the bookkeeping of a line: `$version$`, `$line$`, `$input_name$` and
/// `$line_number$` are bound anew, whatever they were bound to.
pub open spec fn injected(
    store: Seq<Binding>,
    line: Seq<char>,
    input_name: Seq<char>,
    line_number: int,
) -> Seq<Binding> {
    let with_version = assigned(
        store,
        Binding { datatype: DataType::Str, identifier: "$version$"@, value: VERSION@ },
    );
    let with_line = assigned(
        with_version,
        Binding { datatype: DataType::Str, identifier: "$line$"@, value: line },
    );
    let with_name = assigned(
        with_line,
        Binding { datatype: DataType::Str, identifier: "$input_name$"@, value: input_name },
    );
    assigned(
        with_name,
        Binding {
            datatype: DataType::Int,
            identifier: "$line_number$"@,
            value: int_text(line_number),
        },
    )
}

/// Whether the line is a comment: its first character that is no white space is `#`.
pub open spec fn is_comment(line: Seq<char>) -> bool {
    trimmed(line).len() > 0 && trimmed(line)[0] == '#'
}

/// The line that reports a command that is none.
pub open spec fn unrecognised(tokens: Seq<Seq<char>>, input_name: Seq<char>, line_number: int)
    -> Seq<char> {
    input_name + ":"@ + int_text(line_number) + ": unrecognised command: "@ + joined(tokens, " "@)
}

/// A line whose first token is no command: where that token names a `Block` and `()`
/// follows, the block is called; a block called otherwise is a failure under its name;
/// anything else is reported as no command.
pub open spec fn invoked(
    store: Seq<Binding>,
    tokens: Seq<Seq<char>>,
    input_name: Seq<char>,
    line_number: int,
) -> Effect {
    match lookup(store, tokens[0]) {
        Some(binding) => if binding.datatype == DataType::Block {
            if tokens.len() < 2 {
                reported(input_name, line_number, binding.identifier, "invalid block call"@)
            } else if tokens[1] == "()"@ {
                Effect::Call { name: binding.identifier, lines: lines_of(binding.value) }
            } else {
                reported(
                    input_name,
                    line_number,
                    binding.identifier,
                    "block call must contain two parantheses"@,
                )
            }
        } else {
            Effect::Print(unrecognised(tokens, input_name, line_number))
        },
        None => Effect::Print(unrecognised(tokens, input_name, line_number)),
    }
}

/// What the tokens of a line do, by the first of them.
pub open spec fn dispatched(
    known: Seq<Answer>,
    store: Seq<Binding>,
    tokens: Seq<Seq<char>>,
    input_name: Seq<char>,
    line_number: int,
) -> (Seq<Binding>, Effect) {
    let name = tokens[0];
    let rest = tokens.skip(1);
    if name == "let"@ {
        let_of(known, store, rest, input_name, line_number)
    } else if name == "println"@ {
        (store, println_of(known, store, rest, input_name, line_number))
    } else if name == "formatln"@ {
        (store, formatln_of(known, store, rest, input_name, line_number))
    } else if name == "readln"@ {
        (store, readln_of(known, store, rest, input_name, line_number))
    } else if name == "block"@ {
        block_of(store, rest, input_name, line_number)
    } else if name == "interpret"@ {
        (store, interpret_of(known, store, rest, input_name, line_number))
    } else if name == "eval"@ {
        (store, eval_of(known, store, rest, input_name, line_number))
    } else if name == "import"@ {
        (store, import_of(known, store, rest, input_name, line_number))
    } else if name == "if"@ {
        (store, if_of(known, store, rest, input_name, line_number))
    } else if name == "exit"@ {
        (store, exit_of(rest, input_name, line_number))
    } else {
        (store, invoked(store, tokens, input_name, line_number))
    }
}

/// What a line does: after the bookkeeping, nothing where it is empty or a comment, else
/// what its tokens do.
pub open spec fn interpreted(
    known: Seq<Answer>,
    store: Seq<Binding>,
    line: Seq<char>,
    input_name: Seq<char>,
    line_number: int,
) -> (Seq<Binding>, Effect) {
    let store = injected(store, line, input_name, line_number);
    if is_comment(line) || words(line).len() == 0 {
        (store, Effect::Nothing)
    } else {
        dispatched(known, store, words(line), input_name, line_number)
    }
}

/// What a line of an imported file does: what its tokens do where the first of them is
/// `let` or `block`, else nothing. There is no bookkeeping.
pub open spec fn defined(
    known: Seq<Answer>,
    store: Seq<Binding>,
    line: Seq<char>,
    input_name: Seq<char>,
    line_number: int,
) -> (Seq<Binding>, Effect) {
    let tokens = words(line);
    if tokens.len() == 0 {
        (store, Effect::Nothing)
    } else if tokens[0] == "let"@ {
        let_of(known, store, tokens.skip(1), input_name, line_number)
    } else if tokens[0] == "block"@ {
        block_of(store, tokens.skip(1), input_name, line_number)
    } else {
        (store, Effect::Nothing)
    }
}

fn inject(variables: &mut Vec<Variable>, line: &Vec<char>, input_name: &Vec<char>, line_number: i32)
    ensures
        views(final(variables)@) == injected(
            views(old(variables)@),
            line@,
            input_name@,
            line_number as int,
        ),
{
    assign(variable_of(DataType::Str, &chars_of("$version$"), &chars_of(VERSION)), variables);
    assign(variable_of(DataType::Str, &chars_of("$line$"), line), variables);
    assign(variable_of(DataType::Str, &chars_of("$input_name$"), input_name), variables);
    assign(
        variable_of(DataType::Int, &chars_of("$line_number$"), &render_int(line_number)),
        variables,
    );
}

fn invoke(tokens: &Vec<Vec<char>>, input_name: &Vec<char>, line_number: i32, variables: &[Variable])
    -> (action: Action)
    requires
        tokens.len() > 0,
    ensures
        action@ == invoked(views(variables@), views(tokens@), input_name@, line_number as int),
{
    let name = text_of(&tokens[0]);
    match get_variable(name.as_str(), variables) {
        Some(variable) => {
            if variable.datatype == DataType::Block {
                if tokens.len() < 2 {
                    complain(
                        input_name,
                        line_number,
                        variable.identifier.as_str(),
                        "invalid block call",
                    )
                } else if same_text(&tokens[1], &chars_of("()")) {
                    let body = lines(&chars_of(variable.value.as_str()));
                    Action::Call { name: variable.identifier, lines: texts_of(&body) }
                } else {
                    complain(
                        input_name,
                        line_number,
                        variable.identifier.as_str(),
                        "block call must contain two parantheses",
                    )
                }
            } else {
                unrecognised_command(tokens, input_name, line_number)
            }
        },
        None => unrecognised_command(tokens, input_name, line_number),
    }
}

fn unrecognised_command(tokens: &Vec<Vec<char>>, input_name: &Vec<char>, line_number: i32) -> (action:
    Action)
    ensures
        action@ == Effect::Print(unrecognised(views(tokens@), input_name@, line_number as int)),
{
    let mut text: Vec<char> = Vec::new();
    append_text(&mut text, input_name);
    append_text(&mut text, &chars_of(":"));
    append_text(&mut text, &render_int(line_number));
    append_text(&mut text, &chars_of(": unrecognised command: "));
    append_text(&mut text, &join(tokens, &chars_of(" ")));
    assert(text@ =~= unrecognised(views(tokens@), input_name@, line_number as int));
    Action::Print(text_of(&text))
}

fn dispatch(
    tokens: &Vec<Vec<char>>,
    input_name: &Vec<char>,
    line_number: i32,
    variables: &mut Vec<Variable>,
    known: &[Fact],
) -> (action: Action)
    requires
        tokens.len() > 0,
    ensures
        (views(final(variables)@), action@) == dispatched(
            views(known@),
            views(old(variables)@),
            views(tokens@),
            input_name@,
            line_number as int,
        ),
{
    let name = &tokens[0];
    let rest = tail(tokens, 1);
    if same_text(name, &chars_of("let")) {
        let_command(&rest, input_name, line_number, variables, known)
    } else if same_text(name, &chars_of("println")) {
        println_command(&rest, input_name, line_number, variables.as_slice(), known)
    } else if same_text(name, &chars_of("formatln")) {
        formatln_command(&rest, input_name, line_number, variables.as_slice(), known)
    } else if same_text(name, &chars_of("readln")) {
        readln_command(&rest, input_name, line_number, variables.as_slice(), known)
    } else if same_text(name, &chars_of("block")) {
        block_command(&rest, input_name, line_number, variables)
    } else if same_text(name, &chars_of("interpret")) {
        interpret_command(&rest, input_name, line_number, variables.as_slice(), known)
    } else if same_text(name, &chars_of("eval")) {
        eval_command(&rest, input_name, line_number, variables.as_slice(), known)
    } else if same_text(name, &chars_of("import")) {
        import_command(&rest, input_name, line_number, variables.as_slice(), known)
    } else if same_text(name, &chars_of("if")) {
        if_command(&rest, input_name, line_number, variables.as_slice(), known)
    } else if same_text(name, &chars_of("exit")) {
        exit_command(&rest, input_name, line_number)
    } else {
        invoke(tokens, input_name, line_number, variables.as_slice())
    }
}

/// Runs one line, given as its characters.
pub(crate) fn interpret_line(
    line: &Vec<char>,
    input_name: &Vec<char>,
    line_number: i32,
    variables: &mut Vec<Variable>,
    known: &[Fact],
) -> (action: Action)
    ensures
        (views(final(variables)@), action@) == interpreted(
            views(known@),
            views(old(variables)@),
            line@,
            input_name@,
            line_number as int,
        ),
{
    inject(variables, line, input_name, line_number);
    let text = trim(line);
    let tokens = split_whitespace(line);
    if (text.len() > 0 && text[0] == '#') || tokens.len() == 0 {
        Action::Nothing
    } else {
        dispatch(&tokens, input_name, line_number, variables, known)
    }
}

/// Runs one line of an imported file, given as its characters.
pub(crate) fn define_line(
    line: &Vec<char>,
    input_name: &Vec<char>,
    line_number: i32,
    variables: &mut Vec<Variable>,
    known: &[Fact],
) -> (action: Action)
    ensures
        (views(final(variables)@), action@) == defined(
            views(known@),
            views(old(variables)@),
            line@,
            input_name@,
            line_number as int,
        ),
{
    let tokens = split_whitespace(line);
    if tokens.len() == 0 {
        Action::Nothing
    } else if same_text(&tokens[0], &chars_of("let")) {
        let_command(&tail(&tokens, 1), input_name, line_number, variables, known)
    } else if same_text(&tokens[0], &chars_of("block")) {
        block_command(&tail(&tokens, 1), input_name, line_number, variables)
    } else {
        Action::Nothing
    }
}

/// Runs one line of source text in the store.
///
/// First `$version$`, `$line$`, `$input_name$` and `$line_number$` are bound anew. An
/// empty line and a comment do nothing more. Else the first token decides: a command does
/// what it does, the name of a block followed by `()` calls the block, and anything else
/// is reported. The result says what is left to do outside: printing, reading, running
/// further lines, or finding out a fact about doubles before the line is run again.
pub fn interpret(
    line: String,
    input_name: String,
    line_number: i32,
    variables: &mut Vec<Variable>,
    known: &[Fact],
) -> (action: Action)
    ensures
        (views(final(variables)@), action@) == interpreted(
            views(known@),
            views(old(variables)@),
            line@,
            input_name@,
            line_number as int,
        ),
{
    interpret_line(
        &chars_of(line.as_str()),
        &chars_of(input_name.as_str()),
        line_number,
        variables,
        known,
    )
}


/// A line leaves a store that is as it should be so, whatever the line holds.
pub proof fn lemma_lines_keep_valid(
    known: Seq<Answer>,
    store: Seq<Binding>,
    line: Seq<char>,
    input_name: Seq<char>,
    line_number: int,
)
    requires
        valid_store(store),
        i32::MIN <= line_number <= i32::MAX,
    ensures
        valid_store(interpreted(known, store, line, input_name, line_number).0),
        valid_store(defined(known, store, line, input_name, line_number).0),
{
    let with_version = assigned(
        store,
        Binding { datatype: DataType::Str, identifier: "$version$"@, value: VERSION@ },
    );
    let with_line = assigned(
        with_version,
        Binding { datatype: DataType::Str, identifier: "$line$"@, value: line },
    );
    let with_name = assigned(
        with_line,
        Binding { datatype: DataType::Str, identifier: "$input_name$"@, value: input_name },
    );
    let number = Binding {
        datatype: DataType::Int,
        identifier: "$line_number$"@,
        value: int_text(line_number),
    };
    lemma_assign_keeps_valid(
        store,
        Binding { datatype: DataType::Str, identifier: "$version$"@, value: VERSION@ },
    );
    lemma_assign_keeps_valid(
        with_version,
        Binding { datatype: DataType::Str, identifier: "$line$"@, value: line },
    );
    lemma_assign_keeps_valid(
        with_line,
        Binding { datatype: DataType::Str, identifier: "$input_name$"@, value: input_name },
    );
    crate::numerals::lemma_int_text_reads_back(line_number);
    lemma_assign_keeps_valid(with_name, number);
    let ready = injected(store, line, input_name, line_number);
    let tokens = words(line);
    if tokens.len() > 0 {
        lemma_definitions_keep_valid(known, ready, tokens.skip(1), input_name, line_number);
        lemma_definitions_keep_valid(known, store, tokens.skip(1), input_name, line_number);
    }
}


/// The bookkeeping of a line, done twice, leaves the store as doing it once does.
pub proof fn lemma_bookkeeping_idempotent(
    store: Seq<Binding>,
    line: Seq<char>,
    input_name: Seq<char>,
    line_number: int,
)
    ensures
        injected(injected(store, line, input_name, line_number), line, input_name, line_number)
            == injected(store, line, input_name, line_number),
{
    reveal_strlit("$version$");
    reveal_strlit("$line$");
    reveal_strlit("$input_name$");
    reveal_strlit("$line_number$");
    assert("$version$"@.len() == 9);
    assert("$line$"@.len() == 6);
    assert("$input_name$"@.len() == 12);
    assert("$line_number$"@.len() == 13);
    let version = Binding { datatype: DataType::Str, identifier: "$version$"@, value: VERSION@ };
    let text = Binding { datatype: DataType::Str, identifier: "$line$"@, value: line };
    let name = Binding {
        datatype: DataType::Str,
        identifier: "$input_name$"@,
        value: input_name,
    };
    let number = Binding {
        datatype: DataType::Int,
        identifier: "$line_number$"@,
        value: int_text(line_number),
    };
    let s1 = assigned(store, version);
    let s2 = assigned(s1, text);
    let s3 = assigned(s2, name);
    let s4 = assigned(s3, number);
    lemma_assign_lookup(store, version, version.identifier);
    lemma_assign_lookup(s1, text, version.identifier);
    lemma_assign_lookup(s2, name, version.identifier);
    lemma_assign_lookup(s2, name, text.identifier);
    lemma_assign_lookup(s3, number, version.identifier);
    lemma_assign_lookup(s3, number, text.identifier);
    lemma_assign_lookup(s3, number, name.identifier);
    lemma_assign_same(s4, version);
    lemma_assign_same(s4, text);
    lemma_assign_same(s4, name);
    lemma_assign_same(s4, number);
}

/// A line that asks for a fact about doubles has done nothing but its bookkeeping.
pub proof fn lemma_asking_binds_nothing(
    known: Seq<Answer>,
    store: Seq<Binding>,
    line: Seq<char>,
    input_name: Seq<char>,
    line_number: int,
)
    ensures
        interpreted(known, store, line, input_name, line_number).1 is Needs ==> interpreted(
            known,
            store,
            line,
            input_name,
            line_number,
        ).0 == injected(store, line, input_name, line_number),
        defined(known, store, line, input_name, line_number).1 is Needs ==> defined(
            known,
            store,
            line,
            input_name,
            line_number,
        ).0 == store,
{
}


/// A line that did not ask for a fact about doubles does the same when facts are added to
/// those known.
pub proof fn lemma_lines_stay(
    known: Seq<Answer>,
    more: Seq<Answer>,
    store: Seq<Binding>,
    line: Seq<char>,
    input_name: Seq<char>,
    line_number: int,
)
    requires
        crate::arithmetic::extends(more, known),
    ensures
        !(interpreted(known, store, line, input_name, line_number).1 is Needs) ==> interpreted(
            more,
            store,
            line,
            input_name,
            line_number,
        ) == interpreted(known, store, line, input_name, line_number),
        !(defined(known, store, line, input_name, line_number).1 is Needs) ==> defined(
            more,
            store,
            line,
            input_name,
            line_number,
        ) == defined(known, store, line, input_name, line_number),
{
    let ready = injected(store, line, input_name, line_number);
    let tokens = words(line);
    if tokens.len() > 0 {
        crate::commands::lemma_commands_stay(
            known,
            more,
            ready,
            tokens.skip(1),
            input_name,
            line_number,
        );
        crate::commands::lemma_commands_stay(
            known,
            more,
            store,
            tokens.skip(1),
            input_name,
            line_number,
        );
    }
}


/// A line asks only for a fact about doubles that is not known.
pub proof fn lemma_lines_ask_for_news(
    known: Seq<Answer>,
    store: Seq<Binding>,
    line: Seq<char>,
    input_name: Seq<char>,
    line_number: int,
)
    ensures
        crate::action::asks_for_news(
            known,
            interpreted(known, store, line, input_name, line_number).1,
        ),
        crate::action::asks_for_news(known, defined(known, store, line, input_name, line_number).1),
{
    let ready = injected(store, line, input_name, line_number);
    let tokens = words(line);
    if tokens.len() > 0 {
        crate::commands::lemma_commands_ask_for_news(
            known,
            ready,
            tokens.skip(1),
            input_name,
            line_number,
        );
        crate::commands::lemma_commands_ask_for_news(
            known,
            store,
            tokens.skip(1),
            input_name,
            line_number,
        );
    }
}

} // verus!
