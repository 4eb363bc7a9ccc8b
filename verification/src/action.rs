//! What a command asks of whoever runs the interpreter. The interpreter itself prints
//! nothing, reads nothing and never ends the process.

use vstd::prelude::*;
use crate::arithmetic::{Halt, Query, Request, Stop};
use crate::numerals::{int_text, render_int};
use crate::text::{append_text, chars_of, text_of, views};

verus! {

/// What is to be done after a command.
#[derive(Debug, Clone, PartialEq)]
pub enum Action {
    /// Nothing.
    Nothing,
    /// Write the text and a line feed to standard output.
    Print(String),
    /// Write the prompt to standard output, read one line from standard input, and hand it
    /// back: it will be bound to the name.
    Prompt { prompt: String, identifier: String },
    /// Read the named file and hand its text back: its lines will be run in the current
    /// store, all of them or only those that define something.
    Load { name: String, definitions_only: bool },
    /// Run these lines in the current store, under the input name and the line number of
    /// the command.
    Run(Vec<String>),
    /// Run the lines of the named block in a new, empty store.
    Call { name: String, lines: Vec<String> },
    /// End the process with status 0.
    Exit,
    /// Find out the fact about doubles, add it to those known, and run the command again.
    Needs(Request),
    /// Nothing is left to run.
    Finished,
}

/// What an `Action` stands for.
pub ghost enum Effect {
    Nothing,
    Print(Seq<char>),
    Prompt { prompt: Seq<char>, identifier: Seq<char> },
    Load { name: Seq<char>, definitions_only: bool },
    Run(Seq<Seq<char>>),
    Call { name: Seq<char>, lines: Seq<Seq<char>> },
    Exit,
    Needs(Query),
    Finished,
}

impl View for Action {
    type V = Effect;

    open spec fn view(&self) -> Effect {
        match self {
            Action::Nothing => Effect::Nothing,
            Action::Print(text) => Effect::Print(text@),
            Action::Prompt { prompt, identifier } => Effect::Prompt {
                prompt: prompt@,
                identifier: identifier@,
            },
            Action::Load { name, definitions_only } => Effect::Load {
                name: name@,
                definitions_only: *definitions_only,
            },
            Action::Run(lines) => Effect::Run(views(lines@)),
            Action::Call { name, lines } => Effect::Call { name: name@, lines: views(lines@) },
            Action::Exit => Effect::Exit,
            Action::Needs(request) => Effect::Needs(request@),
            Action::Finished => Effect::Finished,
        }
    }
}

/// The line that reports a failure: where it happened, what it came from, and the message.
pub open spec fn diagnostic(
    input_name: Seq<char>,
    line_number: int,
    origin: Seq<char>,
    message: Seq<char>,
) -> Seq<char> {
    input_name + ":"@ + int_text(line_number) + ": "@ + origin + ": "@ + message
}

/// The report of a failure.
pub open spec fn reported(
    input_name: Seq<char>,
    line_number: int,
    origin: Seq<char>,
    message: Seq<char>,
) -> Effect {
    Effect::Print(diagnostic(input_name, line_number, origin, message))
}

/// What is to be done where an evaluation gave no value: a failure is reported, a
/// missing fact is asked for.
pub open spec fn stopped(stop: Stop, input_name: Seq<char>, line_number: int, origin: Seq<char>)
    -> Effect {
    match stop {
        Stop::Failed(message) => reported(input_name, line_number, origin, message),
        Stop::Needs(query) => Effect::Needs(query),
    }
}

/// The line that reports a failure: `<input name>:<line number>: <origin>: <message>`.
pub fn throw_error(message: &str, current_function: &str, input_name: String, line_number: i32) -> (line:
    String)
    ensures
        line@ == diagnostic(input_name@, line_number as int, current_function@, message@),
{
    match report(&chars_of(input_name.as_str()), line_number, current_function, &chars_of(message)) {
        Action::Print(line) => line,
        _ => String::new(),
    }
}

/// The report of a failure.
pub(crate) fn report(input_name: &Vec<char>, line_number: i32, origin: &str, message: &Vec<char>) -> (action:
    Action)
    ensures
        action@ == reported(input_name@, line_number as int, origin@, message@),
{
    let mut line: Vec<char> = Vec::new();
    append_text(&mut line, input_name);
    append_text(&mut line, &chars_of(":"));
    append_text(&mut line, &render_int(line_number));
    append_text(&mut line, &chars_of(": "));
    append_text(&mut line, &chars_of(origin));
    append_text(&mut line, &chars_of(": "));
    append_text(&mut line, message);
    assert(line@ =~= diagnostic(input_name@, line_number as int, origin@, message@));
    Action::Print(text_of(&line))
}

/// The report of a failure whose message is fixed.
pub(crate) fn complain(input_name: &Vec<char>, line_number: i32, origin: &str, message: &str) -> (action:
    Action)
    ensures
        action@ == reported(input_name@, line_number as int, origin@, message@),
{
    report(input_name, line_number, origin, &chars_of(message))
}

/// What is to be done where an evaluation gave no value.
pub(crate) fn stop(halt: Halt, input_name: &Vec<char>, line_number: i32, origin: &str) -> (action: Action)
    ensures
        action@ == stopped(halt@, input_name@, line_number as int, origin@),
{
    match halt {
        Halt::Failed(message) => report(
            input_name,
            line_number,
            origin,
            &chars_of(message.as_str()),
        ),
        Halt::Needs(request) => Action::Needs(request),
    }
}

/// The strings made of the given characters.
pub(crate) fn texts_of(items: &Vec<Vec<char>>) -> (out: Vec<String>)
    ensures
        views(out@) == views(items@),
{
    let mut out: Vec<String> = Vec::new();
    let mut i: usize = 0;
    while i < items.len()
        invariant
            i <= items.len(),
            views(out@) == views(items@).take(i as int),
        decreases items.len() - i,
    {
        let ghost before = views(out@);
        let text = text_of(&items[i]);
        out.push(text);
        assert(views(out@) =~= before.push(items@[i as int]@));
        assert(views(items@).take(i + 1) =~= views(items@).take(i as int).push(
            items@[i as int]@,
        ));
        i += 1;
    }
    assert(views(items@).take(items.len() as int) =~= views(items@));
    out
}


/// Whether the fact that an effect asks for, if it asks for one, is not among those known.
pub open spec fn asks_for_news(known: Seq<crate::arithmetic::Answer>, effect: Effect) -> bool {
    match effect {
        Effect::Needs(query) => crate::arithmetic::answer_from(known, query, 0) is None,
        _ => true,
    }
}

} // verus!
