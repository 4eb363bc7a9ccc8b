//! Expressions: what the text to the right of a command stands for. The kind of a value
//! follows from the shape of the text alone.

use vstd::prelude::*;
use crate::arithmetic::{Answer, Fact, Halt, Stop, failed, number_of, outcome, read_number};
use crate::arithmetic::{asks_anew, extends, finished, lemma_facts_ask_anew, lemma_facts_stay};
use crate::shunting::{lemma_evaluated_asks_anew, lemma_evaluated_stays};
use crate::numerals::{int_of, int_text, parse_int, render_int};
use crate::shunting::{evaluate_tokens, evaluated};
use crate::store::{get_variable, lookup};
use crate::text::{append_text, chars_of, is_ascii_digit, join, replace, rfind_char, same_text};
use crate::text::{slice_of, split_whitespace, tail, text_of, trim, views};
use crate::text::{is_digit, joined, last_index, occurs, replaced, trimmed, words, words_scan};
use crate::value::{Binding, DataType, Variable, agrees, kind_name, returned, unbound};
use crate::value::{represent_datatype, returned_name, unbound_name, variable_of};

verus! {

/// A value that is bound to no name.
pub open spec fn literal(datatype: DataType, text: Seq<char>) -> Binding {
    Binding { datatype, identifier: unbound(), value: text }
}

/// A value that a built-in function returns.
pub open spec fn result(datatype: DataType, text: Seq<char>) -> Binding {
    Binding { datatype, identifier: returned(), value: text }
}

/// Whether the text begins with `open` and ends with `close`.
pub open spec fn enclosed(text: Seq<char>, open: char, close: char) -> bool {
    text.len() > 0 && text.first() == open && text.last() == close
}

/// The text without its first character and, if more is left, without its last.
pub open spec fn inner(text: Seq<char>) -> Seq<char> {
    if text.len() >= 2 {
        text.subrange(1, text.len() - 1)
    } else {
        Seq::empty()
    }
}

/// The text between the parentheses that the tokens, put together with single spaces,
/// begin and end with.
pub open spec fn argument_of(tokens: Seq<Seq<char>>) -> Option<Seq<char>> {
    let text = joined(tokens, " "@);
    if enclosed(text, '(', ')') {
        Some(inner(text))
    } else {
        None
    }
}

/// A failure under the name of the function that it comes from.
pub open spec fn named(name: Seq<char>, r: Result<Binding, Stop>) -> Result<Binding, Stop> {
    match r {
        Err(Stop::Failed(message)) => Err(Stop::Failed(name + ": "@ + message)),
        other => other,
    }
}

/// Two values are equal where they are of one kind and hold the same text.
pub open spec fn equal_values(a: Binding, b: Binding) -> bool {
    a.datatype == b.datatype && a.value == b.value
}

/// The text of a truth value.
pub open spec fn truth(b: bool) -> Seq<char> {
    if b {
        "true"@
    } else {
        "false"@
    }
}

/// The placeholder of a name: the name in braces.
pub open spec fn placeholder(identifier: Seq<char>) -> Seq<char> {
    "{"@ + identifier + "}"@
}

/// The template after the bindings from position `i` on were put in, one after another in
/// the order of the store: each puts the text that its name is bound to in place of every
/// occurrence of its placeholder in what came of the ones before.
pub open spec fn filled_from(store: Seq<Binding>, i: int, template: Seq<char>) -> Seq<char>
    decreases store.len() - i,
{
    if i < 0 || i >= store.len() {
        template
    } else {
        let text = match lookup(store, store[i].identifier) {
            Some(binding) => binding.value,
            None => store[i].value,
        };
        filled_from(store, i + 1, replaced(template, placeholder(store[i].identifier), text))
    }
}

/// The template with the text of every binding in place of its placeholder.
pub open spec fn filled(store: Seq<Binding>, template: Seq<char>) -> Seq<char> {
    filled_from(store, 0, template)
}

/// The result of arithmetic over the tokens: a `Float`, with a failure marked as coming
/// from there.
pub open spec fn arithmetic(known: Seq<Answer>, store: Seq<Binding>, tokens: Seq<Seq<char>>)
    -> Result<Option<Binding>, Stop> {
    match evaluated(known, store, tokens) {
        Ok(number) => Ok(Some(literal(DataType::Float, number))),
        Err(Stop::Failed(message)) => Err(Stop::Failed("shunting yard algorithm: "@ + message)),
        Err(stop) => Err(stop),
    }
}

/// What a piece of text stands for. The first of these that fits decides:
/// nothing, where the text is empty; a `Str` in double quotes; a `Char` in single quotes,
/// of at most one character; `true` or `false`; where the text begins with a digit or a
/// minus sign, arithmetic if it has several tokens, a `Float` if it holds a point, else an
/// `Int`; a variable, where the text is one token; a call of a built-in function, where
/// the first token names one; else arithmetic.
pub open spec fn value_of(known: Seq<Answer>, store: Seq<Binding>, data: Seq<char>) -> Result<
    Option<Binding>,
    Stop,
>
    decreases data.len(), 0nat,
    via value_of_decreases
{
    let text = trimmed(data);
    let tokens = words(text);
    if text.len() == 0 {
        Ok(None)
    } else if enclosed(text, '"', '"') {
        Ok(Some(literal(DataType::Str, inner(text))))
    } else if enclosed(text, '\'', '\'') {
        if inner(text).len() <= 1 {
            Ok(Some(literal(DataType::Char, inner(text))))
        } else {
            Err(Stop::Failed("invalid char assignment"@))
        }
    } else if text == "true"@ || text == "false"@ {
        Ok(Some(literal(DataType::Bool, text)))
    } else if is_digit(text[0]) || text[0] == '-' {
        if tokens.len() > 1 {
            arithmetic(known, store, tokens)
        } else if text.contains('.') {
            match number_of(known, text) {
                Err(stop) => Err(stop),
                Ok(Some(number)) => Ok(Some(literal(DataType::Float, number))),
                Ok(None) => Err(Stop::Failed("invalid float assignment"@)),
            }
        } else {
            match int_of(text) {
                Some(v) => Ok(Some(literal(DataType::Int, int_text(v)))),
                None => Err(Stop::Failed("invalid int assignment"@)),
            }
        }
    } else if tokens.len() <= 1 {
        match lookup(store, text) {
            Some(binding) => Ok(Some(binding)),
            None => Err(Stop::Failed("variable '"@ + text + "' unrecognised"@)),
        }
    } else {
        match called(known, store, tokens[0], tokens.skip(1)) {
            Some(Ok(binding)) => Ok(Some(binding)),
            Some(Err(stop)) => Err(stop),
            None => arithmetic(known, store, tokens),
        }
    }
}

/// The value of the one argument of a function, which stands in parentheses.
pub open spec fn one_argument(
    known: Seq<Answer>,
    store: Seq<Binding>,
    tokens: Seq<Seq<char>>,
    missing: Seq<char>,
    unparenthesised: Seq<char>,
) -> Result<Binding, Stop>
    decreases joined(tokens, " "@).len(), 1nat,
{
    if tokens.len() == 0 {
        Err(Stop::Failed(missing))
    } else {
        match argument_of(tokens) {
            None => Err(Stop::Failed(unparenthesised)),
            Some(argument) => match value_of(known, store, argument) {
                Ok(Some(binding)) => Ok(binding),
                Ok(None) => Err(Stop::Failed(missing)),
                Err(stop) => Err(stop),
            },
        }
    }
}

/// The values of the two arguments of a function, which stand in parentheses with a comma
/// between them: the last comma parts them.
pub open spec fn two_arguments(known: Seq<Answer>, store: Seq<Binding>, tokens: Seq<Seq<char>>)
    -> Result<(Binding, Binding), Stop>
    decreases joined(tokens, " "@).len(), 1nat,
    via two_arguments_decreases
{
    if tokens.len() < 2 {
        Err(Stop::Failed("function requires at least two tokens"@))
    } else {
        match argument_of(tokens) {
            None => Err(Stop::Failed("function call does not contain two parantheses"@)),
            Some(arguments) => match last_index(arguments, ',') {
                None => Err(Stop::Failed("function requires two arguments"@)),
                Some(k) => match value_of(known, store, arguments.take(k)) {
                    Err(stop) => Err(stop),
                    Ok(None) => Err(Stop::Failed("first argument not given"@)),
                    Ok(Some(first)) => match value_of(known, store, arguments.skip(k + 1)) {
                        Err(stop) => Err(stop),
                        Ok(None) => Err(Stop::Failed("second argument not given"@)),
                        Ok(Some(second)) => Ok((first, second)),
                    },
                },
            },
        }
    }
}

/// `typeof (e)`: the name of the kind of `e`.
pub open spec fn typeof_of(known: Seq<Answer>, store: Seq<Binding>, tokens: Seq<Seq<char>>)
    -> Result<Binding, Stop>
    decreases joined(tokens, " "@).len(), 2nat,
{
    match one_argument(
        known,
        store,
        tokens,
        "function requires one argument"@,
        "function call does not contain two parantheses"@,
    ) {
        Ok(binding) => Ok(result(DataType::Str, kind_name(binding.datatype))),
        Err(stop) => Err(stop),
    }
}

/// `nameof (e)`: the name that the value of `e` is bound to.
pub open spec fn nameof_of(known: Seq<Answer>, store: Seq<Binding>, tokens: Seq<Seq<char>>)
    -> Result<Binding, Stop>
    decreases joined(tokens, " "@).len(), 2nat,
{
    match one_argument(
        known,
        store,
        tokens,
        "function requires one argument"@,
        "function call does not contain two parantheses"@,
    ) {
        Ok(binding) => Ok(result(DataType::Str, binding.identifier)),
        Err(stop) => Err(stop),
    }
}

/// `eq (a, b)`: whether the values of `a` and `b` are equal.
pub open spec fn eq_of(known: Seq<Answer>, store: Seq<Binding>, tokens: Seq<Seq<char>>) -> Result<
    Binding,
    Stop,
>
    decreases joined(tokens, " "@).len(), 2nat,
{
    match two_arguments(known, store, tokens) {
        Ok((first, second)) => Ok(result(DataType::Bool, truth(equal_values(first, second)))),
        Err(stop) => Err(stop),
    }
}

/// `ne (a, b)`: whether the values of `a` and `b` differ.
pub open spec fn ne_of(known: Seq<Answer>, store: Seq<Binding>, tokens: Seq<Seq<char>>) -> Result<
    Binding,
    Stop,
>
    decreases joined(tokens, " "@).len(), 2nat,
{
    match two_arguments(known, store, tokens) {
        Ok((first, second)) => Ok(result(DataType::Bool, truth(!equal_values(first, second)))),
        Err(stop) => Err(stop),
    }
}

/// `format (t)`: the text of `t` with the text of every binding in place of its placeholder.
pub open spec fn format_of(known: Seq<Answer>, store: Seq<Binding>, tokens: Seq<Seq<char>>)
    -> Result<Binding, Stop>
    decreases joined(tokens, " "@).len(), 2nat,
{
    match one_argument(
        known,
        store,
        tokens,
        "command requires one argument"@,
        "command call does not contain two parantheses"@,
    ) {
        Ok(binding) => Ok(result(DataType::Str, filled(store, binding.value))),
        Err(stop) => Err(stop),
    }
}

/// The result of the built-in function that `name` names, if it names one, on the tokens
/// that follow the name.
pub open spec fn called(
    known: Seq<Answer>,
    store: Seq<Binding>,
    name: Seq<char>,
    tokens: Seq<Seq<char>>,
) -> Option<Result<Binding, Stop>>
    decreases joined(tokens, " "@).len(), 3nat,
{
    if name == "typeof"@ {
        Some(named(name, typeof_of(known, store, tokens)))
    } else if name == "nameof"@ {
        Some(named(name, nameof_of(known, store, tokens)))
    } else if name == "eq"@ {
        Some(named(name, eq_of(known, store, tokens)))
    } else if name == "ne"@ {
        Some(named(name, ne_of(known, store, tokens)))
    } else if name == "format"@ {
        Some(named(name, format_of(known, store, tokens)))
    } else {
        None
    }
}

#[via_fn]
proof fn two_arguments_decreases(known: Seq<Answer>, store: Seq<Binding>, tokens: Seq<Seq<char>>) {
    match argument_of(tokens) {
        Some(arguments) => {
            crate::text::lemma_last_below(arguments, ',', arguments.len() as int);
        },
        None => {},
    }
}

#[via_fn]
proof fn value_of_decreases(known: Seq<Answer>, store: Seq<Binding>, data: Seq<char>) {
    let text = trimmed(data);
    let tokens = words(text);
    if tokens.len() > 1 {
        lemma_rest_is_shorter(data);
    }
}

/// The parts behind a first one, put together, are as long as all of them put together,
/// less the first part and one separator.
pub proof fn lemma_joined_first(parts: Seq<Seq<char>>, sep: Seq<char>)
    requires
        parts.len() >= 2,
    ensures
        joined(parts, sep) == parts[0] + sep + joined(parts.skip(1), sep),
    decreases parts.len(),
{
    if parts.len() == 2 {
        assert(parts.drop_last() =~= seq![parts[0]]);
        assert(parts.skip(1) =~= seq![parts[1]]);
        assert(joined(parts.drop_last(), sep) == parts[0]);
        assert(joined(parts.skip(1), sep) == parts[1]);
    } else {
        lemma_joined_first(parts.drop_last(), sep);
        assert(parts.drop_last().skip(1) =~= parts.skip(1).drop_last());
        assert(parts.skip(1).last() == parts.last());
        assert(joined(parts, sep) =~= parts[0] + sep + joined(parts.skip(1), sep));
    }
}

/// The words read from position `i` on, put together with single spaces, take no more
/// room than what is read.
pub proof fn lemma_words_fit(s: Seq<char>, i: int, word: Seq<char>)
    requires
        0 <= i <= s.len(),
    ensures
        joined(words_scan(s, i, word), " "@).len() <= word.len() + (s.len() - i),
        word.len() > 0 ==> words_scan(s, i, word).len() > 0 && words_scan(s, i, word)[0].len()
            > 0,
    decreases s.len() - i,
{
    reveal_strlit(" ");
    if i >= s.len() {
        if word.len() > 0 {
            assert(joined(seq![word], " "@) == word);
        }
    } else if crate::text::is_space(s[i]) {
        lemma_words_fit(s, i + 1, Seq::empty());
        let rest = words_scan(s, i + 1, Seq::empty());
        if word.len() > 0 {
            let all = seq![word] + rest;
            if rest.len() == 0 {
                assert(all =~= seq![word]);
                assert(joined(all, " "@) == word);
            } else {
                lemma_joined_first(all, " "@);
                assert(all.skip(1) =~= rest);
            }
        }
    } else {
        lemma_words_fit(s, i + 1, word.push(s[i]));
    }
}

/// Every word is at least one character long.
pub proof fn lemma_words_are_full(s: Seq<char>, i: int, word: Seq<char>, k: int)
    requires
        0 <= i <= s.len(),
        0 <= k < words_scan(s, i, word).len(),
    ensures
        words_scan(s, i, word)[k].len() > 0,
    decreases s.len() - i,
{
    if i >= s.len() {
    } else if crate::text::is_space(s[i]) {
        if word.len() > 0 {
            if k > 0 {
                lemma_words_are_full(s, i + 1, Seq::empty(), k - 1);
            }
        } else {
            lemma_words_are_full(s, i + 1, Seq::empty(), k);
        }
    } else {
        lemma_words_are_full(s, i + 1, word.push(s[i]), k);
    }
}

/// The words of a text behind its first, put together with single spaces, are shorter
/// than the text.
pub proof fn lemma_rest_is_shorter(data: Seq<char>)
    requires
        words(trimmed(data)).len() > 1,
    ensures
        joined(words(trimmed(data)).skip(1), " "@).len() < data.len(),
{
    let text = trimmed(data);
    let tokens = words(text);
    crate::text::lemma_trimmed_fits(data);
    lemma_words_fit(text, 0, Seq::empty());
    lemma_joined_first(tokens, " "@);
    lemma_words_are_full(text, 0, Seq::empty(), 0);
}


/// What the result of an evaluation stands for.
pub open spec fn value_outcome(r: Result<Option<Variable>, Halt>) -> Result<Option<Binding>, Stop> {
    match r {
        Ok(Some(variable)) => Ok(Some(variable@)),
        Ok(None) => Ok(None),
        Err(halt) => Err(halt@),
    }
}

/// What the result of a call by name stands for.
pub open spec fn call_outcome(r: Option<Result<Variable, Halt>>) -> Option<Result<Binding, Stop>> {
    match r {
        Some(result) => Some(outcome(result)),
        None => None,
    }
}

/// What the values of two arguments stand for.
pub open spec fn pair_outcome(r: Result<(Variable, Variable), Halt>) -> Result<
    (Binding, Binding),
    Stop,
> {
    match r {
        Ok((first, second)) => Ok((first@, second@)),
        Err(halt) => Err(halt@),
    }
}

fn literal_value(datatype: DataType, text: &Vec<char>) -> (out: Variable)
    ensures
        out@ == literal(datatype, text@),
{
    variable_of(datatype, &unbound_name(), text)
}

fn result_value(datatype: DataType, text: &Vec<char>) -> (out: Variable)
    ensures
        out@ == result(datatype, text@),
{
    variable_of(datatype, &returned_name(), text)
}

fn is_enclosed(text: &Vec<char>, open: char, close: char) -> (r: bool)
    ensures
        r == enclosed(text@, open, close),
{
    text.len() > 0 && text[0] == open && text[text.len() - 1] == close
}

fn inner_of(text: &Vec<char>) -> (out: Vec<char>)
    ensures
        out@ == inner(text@),
{
    if text.len() >= 2 {
        slice_of(text, 1, text.len() - 1)
    } else {
        Vec::new()
    }
}

fn contains_char(text: &Vec<char>, c: char) -> (r: bool)
    ensures
        r == text@.contains(c),
{
    let mut i: usize = 0;
    while i < text.len()
        invariant
            i <= text.len(),
            forall|k: int| 0 <= k < i ==> text@[k] != c,
        decreases text.len() - i,
    {
        if text[i] == c {
            return true;
        }
        i += 1;
    }
    false
}

fn arithmetic_value(tokens: &Vec<Vec<char>>, variables: &[Variable], known: &[Fact]) -> (r:
    Result<Option<Variable>, Halt>)
    ensures
        value_outcome(r) == arithmetic(views(known@), views(variables@), views(tokens@)),
{
    match evaluate_tokens(tokens, variables, known) {
        Ok(number) => Ok(Some(literal_value(DataType::Float, &number))),
        Err(Halt::Failed(message)) => {
            let mut text = chars_of("shunting yard algorithm: ");
            append_text(&mut text, &chars_of(message.as_str()));
            Err(failed(&text))
        },
        Err(halt) => Err(halt),
    }
}

fn name_failure(name: &Vec<char>, r: Result<Variable, Halt>) -> (out: Result<Variable, Halt>)
    ensures
        outcome(out) == named(name@, outcome(r)),
{
    match r {
        Err(Halt::Failed(message)) => {
            let mut text: Vec<char> = Vec::new();
            append_text(&mut text, name);
            append_text(&mut text, &chars_of(": "));
            append_text(&mut text, &chars_of(message.as_str()));
            assert(text@ =~= name@ + ": "@ + message@);
            Err(failed(&text))
        },
        other => other,
    }
}

fn truth_text(b: bool) -> (out: Vec<char>)
    ensures
        out@ == truth(b),
{
    if b {
        chars_of("true")
    } else {
        chars_of("false")
    }
}

fn values_equal(a: &Variable, b: &Variable) -> (r: bool)
    ensures
        r == equal_values(a@, b@),
{
    a.datatype == b.datatype && a.value == b.value
}

/// The template with the text of every binding in place of its placeholder.
pub(crate) fn fill(variables: &[Variable], template: Vec<char>) -> (out: Vec<char>)
    ensures
        out@ == filled(views(variables@), template@),
{
    let mut out = template;
    let mut i: usize = 0;
    while i < variables.len()
        invariant
            i <= variables.len(),
            filled(views(variables@), template@) == filled_from(
                views(variables@),
                i as int,
                out@,
            ),
        decreases variables.len() - i,
    {
        let mut sought = chars_of("{");
        append_text(&mut sought, &chars_of(variables[i].identifier.as_str()));
        append_text(&mut sought, &chars_of("}"));
        let text = match get_variable(variables[i].identifier.as_str(), variables) {
            Some(found) => chars_of(found.value.as_str()),
            None => chars_of(variables[i].value.as_str()),
        };
        out = replace(&out, &sought, &text);
        i += 1;
    }
    out
}

/// Evaluates a piece of text, given as its characters.
pub(crate) fn evaluate(data: &Vec<char>, variables: &[Variable], known: &[Fact]) -> (r: Result<
    Option<Variable>,
    Halt,
>)
    ensures
        value_outcome(r) == value_of(views(known@), views(variables@), data@),
    decreases data@.len(), 0nat,
{
    let text = trim(data);
    let tokens = split_whitespace(&text);
    if text.len() == 0 {
        Ok(None)
    } else if is_enclosed(&text, '"', '"') {
        Ok(Some(literal_value(DataType::Str, &inner_of(&text))))
    } else if is_enclosed(&text, '\'', '\'') {
        let value = inner_of(&text);
        if value.len() <= 1 {
            Ok(Some(literal_value(DataType::Char, &value)))
        } else {
            Err(failed(&chars_of("invalid char assignment")))
        }
    } else if same_text(&text, &chars_of("true")) || same_text(&text, &chars_of("false")) {
        Ok(Some(literal_value(DataType::Bool, &text)))
    } else if is_ascii_digit(text[0]) || text[0] == '-' {
        if tokens.len() > 1 {
            arithmetic_value(&tokens, variables, known)
        } else if contains_char(&text, '.') {
            match read_number(known, &text) {
                Err(halt) => Err(halt),
                Ok(Some(number)) => Ok(Some(literal_value(DataType::Float, &number))),
                Ok(None) => Err(failed(&chars_of("invalid float assignment"))),
            }
        } else {
            match parse_int(&text) {
                Some(v) => Ok(Some(literal_value(DataType::Int, &render_int(v)))),
                None => Err(failed(&chars_of("invalid int assignment"))),
            }
        }
    } else if tokens.len() <= 1 {
        let name = text_of(&text);
        match get_variable(name.as_str(), variables) {
            Some(variable) => Ok(Some(variable)),
            None => {
                let mut message = chars_of("variable '");
                append_text(&mut message, &text);
                append_text(&mut message, &chars_of("' unrecognised"));
                Err(failed(&message))
            },
        }
    } else {
        let rest = tail(&tokens, 1);
        proof {
            lemma_rest_is_shorter(data@);
        }
        match call(&tokens[0], &rest, variables, known) {
            Some(Ok(variable)) => Ok(Some(variable)),
            Some(Err(halt)) => Err(halt),
            None => arithmetic_value(&tokens, variables, known),
        }
    }
}

fn argument_value(
    tokens: &Vec<Vec<char>>,
    variables: &[Variable],
    known: &[Fact],
    missing: &str,
    unparenthesised: &str,
) -> (r: Result<Variable, Halt>)
    ensures
        outcome(r) == one_argument(
            views(known@),
            views(variables@),
            views(tokens@),
            missing@,
            unparenthesised@,
        ),
    decreases joined(views(tokens@), " "@).len(), 1nat,
{
    if tokens.len() == 0 {
        return Err(failed(&chars_of(missing)));
    }
    let text = join(tokens, &chars_of(" "));
    if !is_enclosed(&text, '(', ')') {
        return Err(failed(&chars_of(unparenthesised)));
    }
    let argument = inner_of(&text);
    match evaluate(&argument, variables, known) {
        Ok(Some(variable)) => Ok(variable),
        Ok(None) => Err(failed(&chars_of(missing))),
        Err(halt) => Err(halt),
    }
}

fn argument_values(tokens: &Vec<Vec<char>>, variables: &[Variable], known: &[Fact]) -> (r:
    Result<(Variable, Variable), Halt>)
    ensures
        pair_outcome(r) == two_arguments(views(known@), views(variables@), views(tokens@)),
    decreases joined(views(tokens@), " "@).len(), 1nat,
{
    if tokens.len() < 2 {
        return Err(failed(&chars_of("function requires at least two tokens")));
    }
    let text = join(tokens, &chars_of(" "));
    if !is_enclosed(&text, '(', ')') {
        return Err(failed(&chars_of("function call does not contain two parantheses")));
    }
    let arguments = inner_of(&text);
    match rfind_char(&arguments, ',') {
        None => Err(failed(&chars_of("function requires two arguments"))),
        Some(k) => {
            let first_text = slice_of(&arguments, 0, k);
            let second_text = slice_of(&arguments, k + 1, arguments.len());
            assert(first_text@ =~= arguments@.take(k as int));
            assert(second_text@ =~= arguments@.skip(k + 1));
            match evaluate(&first_text, variables, known) {
                Err(halt) => Err(halt),
                Ok(None) => Err(failed(&chars_of("first argument not given"))),
                Ok(Some(first)) => match evaluate(&second_text, variables, known) {
                    Err(halt) => Err(halt),
                    Ok(None) => Err(failed(&chars_of("second argument not given"))),
                    Ok(Some(second)) => Ok((first, second)),
                },
            }
        },
    }
}

/// `typeof`, on the tokens of its argument.
pub(crate) fn type_of(tokens: &Vec<Vec<char>>, variables: &[Variable], known: &[Fact]) -> (r: Result<
    Variable,
    Halt,
>)
    ensures
        outcome(r) == typeof_of(views(known@), views(variables@), views(tokens@)),
    decreases joined(views(tokens@), " "@).len(), 2nat,
{
    match argument_value(
        tokens,
        variables,
        known,
        "function requires one argument",
        "function call does not contain two parantheses",
    ) {
        Ok(argument) => Ok(
            result_value(DataType::Str, &chars_of(represent_datatype(argument.datatype))),
        ),
        Err(halt) => Err(halt),
    }
}

/// `nameof`, on the tokens of its argument.
pub(crate) fn name_of(tokens: &Vec<Vec<char>>, variables: &[Variable], known: &[Fact]) -> (r: Result<
    Variable,
    Halt,
>)
    ensures
        outcome(r) == nameof_of(views(known@), views(variables@), views(tokens@)),
    decreases joined(views(tokens@), " "@).len(), 2nat,
{
    match argument_value(
        tokens,
        variables,
        known,
        "function requires one argument",
        "function call does not contain two parantheses",
    ) {
        Ok(argument) => Ok(
            result_value(DataType::Str, &chars_of(argument.identifier.as_str())),
        ),
        Err(halt) => Err(halt),
    }
}

/// `eq`, on the tokens of its arguments.
pub(crate) fn equal(tokens: &Vec<Vec<char>>, variables: &[Variable], known: &[Fact]) -> (r: Result<
    Variable,
    Halt,
>)
    ensures
        outcome(r) == eq_of(views(known@), views(variables@), views(tokens@)),
    decreases joined(views(tokens@), " "@).len(), 2nat,
{
    match argument_values(tokens, variables, known) {
        Ok((first, second)) => Ok(
            result_value(DataType::Bool, &truth_text(values_equal(&first, &second))),
        ),
        Err(halt) => Err(halt),
    }
}

/// `ne`, on the tokens of its arguments.
pub(crate) fn unequal(tokens: &Vec<Vec<char>>, variables: &[Variable], known: &[Fact]) -> (r: Result<
    Variable,
    Halt,
>)
    ensures
        outcome(r) == ne_of(views(known@), views(variables@), views(tokens@)),
    decreases joined(views(tokens@), " "@).len(), 2nat,
{
    match argument_values(tokens, variables, known) {
        Ok((first, second)) => Ok(
            result_value(DataType::Bool, &truth_text(!values_equal(&first, &second))),
        ),
        Err(halt) => Err(halt),
    }
}

/// `format`, on the tokens of its argument.
pub(crate) fn format_text(tokens: &Vec<Vec<char>>, variables: &[Variable], known: &[Fact]) -> (r:
    Result<Variable, Halt>)
    ensures
        outcome(r) == format_of(views(known@), views(variables@), views(tokens@)),
    decreases joined(views(tokens@), " "@).len(), 2nat,
{
    match argument_value(
        tokens,
        variables,
        known,
        "command requires one argument",
        "command call does not contain two parantheses",
    ) {
        Ok(argument) => Ok(
            result_value(DataType::Str, &fill(variables, chars_of(argument.value.as_str()))),
        ),
        Err(halt) => Err(halt),
    }
}

/// Calls the built-in function that `name` names, if it names one.
pub(crate) fn call(name: &Vec<char>, tokens: &Vec<Vec<char>>, variables: &[Variable], known: &[Fact])
    -> (r: Option<Result<Variable, Halt>>)
    ensures
        call_outcome(r) == called(views(known@), views(variables@), name@, views(tokens@)),
    decreases joined(views(tokens@), " "@).len(), 3nat,
{
    if same_text(name, &chars_of("typeof")) {
        Some(name_failure(name, type_of(tokens, variables, known)))
    } else if same_text(name, &chars_of("nameof")) {
        Some(name_failure(name, name_of(tokens, variables, known)))
    } else if same_text(name, &chars_of("eq")) {
        Some(name_failure(name, equal(tokens, variables, known)))
    } else if same_text(name, &chars_of("ne")) {
        Some(name_failure(name, unequal(tokens, variables, known)))
    } else if same_text(name, &chars_of("format")) {
        Some(name_failure(name, format_text(tokens, variables, known)))
    } else {
        None
    }
}


/// A text in double quotes stands for a `Str` that holds what is between the quotes,
/// whatever the store holds.
pub proof fn lemma_quoted_text_is_str(known: Seq<Answer>, store: Seq<Binding>, text: Seq<char>)
    requires
        enclosed(text, '"', '"'),
    ensures
        value_of(known, store, text) == Ok::<_, Stop>(
            Some(literal(DataType::Str, inner(text))),
        ),
{
    crate::text::lemma_trimmed_is_whole(text);
}

/// `eq` and `ne` never agree: on the same tokens both fail in the same way, or both give
/// a `Bool`, of which one is `true` and the other `false`.
pub proof fn lemma_eq_ne_never_agree(known: Seq<Answer>, store: Seq<Binding>, tokens: Seq<Seq<char>>)
    ensures
        match (eq_of(known, store, tokens), ne_of(known, store, tokens)) {
            (Ok(eq), Ok(ne)) => {
                &&& eq.datatype == DataType::Bool
                &&& ne.datatype == DataType::Bool
                &&& eq.value != ne.value
                &&& (eq.value == "true"@ && ne.value == "false"@) || (eq.value == "false"@
                    && ne.value == "true"@)
            },
            (Err(first), Err(second)) => first == second,
            _ => false,
        },
{
    reveal_strlit("true");
    reveal_strlit("false");
    assert("true"@.len() != "false"@.len());
}

/// With one binding in the store, the text of that binding stands in place of every
/// occurrence of its placeholder.
pub proof fn lemma_fill_replaces_placeholder(binding: Binding, template: Seq<char>)
    ensures
        filled(seq![binding], template) == replaced(
            template,
            placeholder(binding.identifier),
            binding.value,
        ),
{
    let store = seq![binding];
    assert(lookup(store, binding.identifier) == Some(binding));
    assert(filled_from(store, 1, replaced(template, placeholder(binding.identifier), binding.value))
        == replaced(template, placeholder(binding.identifier), binding.value));
}

/// A text in which the placeholder of no binding of the store occurs is left as it is.
pub proof fn lemma_fill_nothing(store: Seq<Binding>, i: int, text: Seq<char>)
    requires
        0 <= i,
        forall|k: int|
            0 <= k < store.len() ==> !occurs(text, placeholder((#[trigger] store[k]).identifier)),
    ensures
        filled_from(store, i, text) == text,
    decreases store.len() - i,
{
    if i < store.len() {
        let value = match lookup(store, store[i].identifier) {
            Some(binding) => binding.value,
            None => store[i].value,
        };
        crate::text::lemma_replace_nothing(text, 0, placeholder(store[i].identifier), value);
        assert(text.skip(0) =~= text);
        lemma_fill_nothing(store, i + 1, text);
    }
}

/// Filling is idempotent wherever its result holds no placeholder of a binding of the
/// store: to fill that result again changes nothing.
pub proof fn lemma_fill_idempotent(store: Seq<Binding>, template: Seq<char>)
    requires
        forall|k: int|
            0 <= k < store.len() ==> !occurs(
                filled(store, template),
                placeholder((#[trigger] store[k]).identifier),
            ),
    ensures
        filled(store, filled(store, template)) == filled(store, template),
{
    lemma_fill_nothing(store, 0, filled(store, template));
}


/// Whatever a text stands for in a store whose values agree in kind and text is itself a
/// value whose kind and text agree.
pub proof fn lemma_value_agrees(known: Seq<Answer>, store: Seq<Binding>, data: Seq<char>)
    requires
        forall|i: int| 0 <= i < store.len() ==> agrees(#[trigger] store[i]),
    ensures
        match value_of(known, store, data) {
            Ok(Some(binding)) => agrees(binding),
            _ => true,
        },
{
    let text = trimmed(data);
    let tokens = words(text);
    if text.len() == 0 {
    } else if enclosed(text, '"', '"') {
    } else if enclosed(text, '\'', '\'') {
    } else if text == "true"@ || text == "false"@ {
    } else if is_digit(text[0]) || text[0] == '-' {
        if tokens.len() > 1 {
        } else if text.contains('.') {
        } else {
            match int_of(text) {
                Some(v) => {
                    crate::numerals::lemma_int_text_reads_back(v);
                },
                None => {},
            }
        }
    } else if tokens.len() <= 1 {
        crate::store::lemma_position(store, text, 0);
    } else {
    }
}


/// `typeof` without an argument is refused with a message of its own, whatever the store
/// holds: both with no token at all and with empty parentheses.
pub proof fn lemma_typeof_needs_an_argument(known: Seq<Answer>, store: Seq<Binding>)
    ensures
        typeof_of(known, store, Seq::empty()) == Err::<Binding, _>(
            Stop::Failed("function requires one argument"@),
        ),
        typeof_of(known, store, seq!["()"@]) == Err::<Binding, _>(
            Stop::Failed("function requires one argument"@),
        ),
{
    reveal_strlit("()");
    let tokens = seq!["()"@];
    assert(joined(tokens, " "@) == "()"@);
    assert(inner("()"@) =~= Seq::<char>::empty());
    assert(trimmed(Seq::<char>::empty()) =~= Seq::<char>::empty());
}


/// A text that was evaluated, or refused, comes out the same when facts about doubles
/// are added to those known: a value, once found, does not depend on what is found out
/// later.
pub proof fn lemma_value_stays(
    known: Seq<Answer>,
    more: Seq<Answer>,
    store: Seq<Binding>,
    data: Seq<char>,
)
    requires
        extends(more, known),
        finished(value_of(known, store, data)),
    ensures
        value_of(more, store, data) == value_of(known, store, data),
    decreases data.len(), 0nat,
{
    lemma_facts_stay(known, more);
    let text = trimmed(data);
    let tokens = words(text);
    if text.len() == 0 {
    } else if enclosed(text, '"', '"') {
    } else if enclosed(text, '\'', '\'') {
    } else if text == "true"@ || text == "false"@ {
    } else if is_digit(text[0]) || text[0] == '-' {
        if tokens.len() > 1 {
            lemma_evaluated_stays(known, more, store, tokens);
        }
    } else if tokens.len() <= 1 {
    } else {
        lemma_rest_is_shorter(data);
        lemma_called_stays(known, more, store, tokens[0], tokens.skip(1));
        if called(known, store, tokens[0], tokens.skip(1)) is None {
            lemma_evaluated_stays(known, more, store, tokens);
        }
    }
}

proof fn lemma_one_argument_stays(
    known: Seq<Answer>,
    more: Seq<Answer>,
    store: Seq<Binding>,
    tokens: Seq<Seq<char>>,
    missing: Seq<char>,
    unparenthesised: Seq<char>,
)
    requires
        extends(more, known),
        finished(one_argument(known, store, tokens, missing, unparenthesised)),
    ensures
        one_argument(more, store, tokens, missing, unparenthesised) == one_argument(
            known,
            store,
            tokens,
            missing,
            unparenthesised,
        ),
    decreases joined(tokens, " "@).len(), 1nat,
{
    if tokens.len() > 0 {
        match argument_of(tokens) {
            Some(argument) => {
                lemma_value_stays(known, more, store, argument);
            },
            None => {},
        }
    }
}

proof fn lemma_two_arguments_stay(
    known: Seq<Answer>,
    more: Seq<Answer>,
    store: Seq<Binding>,
    tokens: Seq<Seq<char>>,
)
    requires
        extends(more, known),
        finished(two_arguments(known, store, tokens)),
    ensures
        two_arguments(more, store, tokens) == two_arguments(known, store, tokens),
    decreases joined(tokens, " "@).len(), 1nat,
{
    if tokens.len() >= 2 {
        match argument_of(tokens) {
            Some(arguments) => {
                crate::text::lemma_last_below(arguments, ',', arguments.len() as int);
                match last_index(arguments, ',') {
                    Some(k) => {
                        lemma_value_stays(known, more, store, arguments.take(k));
                        match value_of(known, store, arguments.take(k)) {
                            Ok(Some(_)) => {
                                lemma_value_stays(known, more, store, arguments.skip(k + 1));
                            },
                            _ => {},
                        }
                    },
                    None => {},
                }
            },
            None => {},
        }
    }
}

/// A call that came to an end comes out the same when facts about doubles are added.
pub proof fn lemma_called_stays(
    known: Seq<Answer>,
    more: Seq<Answer>,
    store: Seq<Binding>,
    name: Seq<char>,
    tokens: Seq<Seq<char>>,
)
    requires
        extends(more, known),
        match called(known, store, name, tokens) {
            Some(r) => finished(r),
            None => true,
        },
    ensures
        called(more, store, name, tokens) == called(known, store, name, tokens),
    decreases joined(tokens, " "@).len(), 3nat,
{
    if name == "typeof"@ || name == "nameof"@ {
        lemma_one_argument_stays(
            known,
            more,
            store,
            tokens,
            "function requires one argument"@,
            "function call does not contain two parantheses"@,
        );
    } else if name == "eq"@ || name == "ne"@ {
        lemma_two_arguments_stay(known, more, store, tokens);
    } else if name == "format"@ {
        lemma_one_argument_stays(
            known,
            more,
            store,
            tokens,
            "command requires one argument"@,
            "command call does not contain two parantheses"@,
        );
    }
}


/// A text that is evaluated asks only for what is not known.
pub proof fn lemma_value_asks_anew(known: Seq<Answer>, store: Seq<Binding>, data: Seq<char>)
    ensures
        asks_anew(known, value_of(known, store, data)),
    decreases data.len(), 0nat,
{
    lemma_facts_ask_anew(known);
    let text = trimmed(data);
    let tokens = words(text);
    if text.len() == 0 {
    } else if enclosed(text, '"', '"') {
    } else if enclosed(text, '\'', '\'') {
    } else if text == "true"@ || text == "false"@ {
    } else if is_digit(text[0]) || text[0] == '-' {
        if tokens.len() > 1 {
            lemma_evaluated_asks_anew(known, store, tokens);
        }
    } else if tokens.len() <= 1 {
    } else {
        lemma_rest_is_shorter(data);
        lemma_called_asks_anew(known, store, tokens[0], tokens.skip(1));
        lemma_evaluated_asks_anew(known, store, tokens);
    }
}

proof fn lemma_arguments_ask_anew(
    known: Seq<Answer>,
    store: Seq<Binding>,
    tokens: Seq<Seq<char>>,
    missing: Seq<char>,
    unparenthesised: Seq<char>,
)
    ensures
        asks_anew(known, one_argument(known, store, tokens, missing, unparenthesised)),
        asks_anew(known, two_arguments(known, store, tokens)),
    decreases joined(tokens, " "@).len(), 1nat,
{
    match argument_of(tokens) {
        Some(arguments) => {
            if tokens.len() > 0 {
                lemma_value_asks_anew(known, store, arguments);
            }
            crate::text::lemma_last_below(arguments, ',', arguments.len() as int);
            match last_index(arguments, ',') {
                Some(k) => {
                    if tokens.len() >= 2 {
                        lemma_value_asks_anew(known, store, arguments.take(k));
                        lemma_value_asks_anew(known, store, arguments.skip(k + 1));
                    }
                },
                None => {},
            }
        },
        None => {},
    }
}

/// A call asks only for what is not known.
pub proof fn lemma_called_asks_anew(
    known: Seq<Answer>,
    store: Seq<Binding>,
    name: Seq<char>,
    tokens: Seq<Seq<char>>,
)
    ensures
        match called(known, store, name, tokens) {
            Some(r) => asks_anew(known, r),
            None => true,
        },
    decreases joined(tokens, " "@).len(), 3nat,
{
    lemma_arguments_ask_anew(
        known,
        store,
        tokens,
        "function requires one argument"@,
        "function call does not contain two parantheses"@,
    );
    lemma_arguments_ask_anew(
        known,
        store,
        tokens,
        "command requires one argument"@,
        "command call does not contain two parantheses"@,
    );
}

} // verus!
