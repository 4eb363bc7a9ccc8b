//! Infix arithmetic over doubles, evaluated with a stack of operators and a stack of
//! values while the tokens are read.
//!
//! An operator that arrives waits on the operator stack. Only `+` and `-` make what is
//! before them give way, and only to `*` and `/` on top of the stack; every other pair is
//! left as it came, so that what waits is applied from the right when the input ends.

use vstd::prelude::*;
use crate::arithmetic::{failed, failed_with, read_number, read_result};
use crate::arithmetic::{Answer, Fact, Halt, Operator, Stop, number_of, outcome, result_of};
use crate::arithmetic::{asks_anew, extends, finished, lemma_facts_ask_anew, lemma_facts_stay};
use crate::store::{get_variable, lookup};
use crate::text::{append_text, chars_of, same_text, text_of, views};
use crate::value::{Binding, DataType, Variable};

verus! {

/// What waits on the operator stack: one of the six operators, or an opening parenthesis.
#[derive(Debug, Clone, Copy, PartialEq, Eq, Structural)]
pub enum Symbol {
    Plus,
    Minus,
    Times,
    Slash,
    Caret,
    Percent,
    Open,
}

/// The symbol that a token writes, if it writes one.
pub open spec fn symbol_of(token: Seq<char>) -> Option<Symbol> {
    if token == "+"@ {
        Some(Symbol::Plus)
    } else if token == "-"@ {
        Some(Symbol::Minus)
    } else if token == "*"@ {
        Some(Symbol::Times)
    } else if token == "/"@ {
        Some(Symbol::Slash)
    } else if token == "^"@ {
        Some(Symbol::Caret)
    } else if token == "%"@ {
        Some(Symbol::Percent)
    } else if token == "("@ {
        Some(Symbol::Open)
    } else {
        None
    }
}

/// The two stacks of the evaluation. A value is a double as it is written.
pub ghost struct Stacks {
    pub operators: Seq<Symbol>,
    pub values: Seq<Seq<char>>,
}

/// An operator applied to two doubles: `+ - * /` as usual, `%` the remainder, and
/// `a ^ b` the product of `a`, `a` and `b`.
pub open spec fn applied(known: Seq<Answer>, symbol: Symbol, a: Seq<char>, b: Seq<char>) -> Result<
    Seq<char>,
    Stop,
> {
    match symbol {
        Symbol::Plus => result_of(known, Operator::Add, a, b),
        Symbol::Minus => result_of(known, Operator::Subtract, a, b),
        Symbol::Times => result_of(known, Operator::Multiply, a, b),
        Symbol::Slash => result_of(known, Operator::Divide, a, b),
        Symbol::Percent => result_of(known, Operator::Remainder, a, b),
        Symbol::Caret => match result_of(known, Operator::Multiply, a, a) {
            Ok(square) => result_of(known, Operator::Multiply, square, b),
            Err(stop) => Err(stop),
        },
        Symbol::Open => Err(Stop::Failed("invalid operator: ("@)),
    }
}

/// The value stack after an operator took the two values on top and left its result.
pub open spec fn reduced(known: Seq<Answer>, symbol: Symbol, values: Seq<Seq<char>>) -> Result<
    Seq<Seq<char>>,
    Stop,
> {
    if values.len() < 2 {
        Err(Stop::Failed("invalid expression"@))
    } else {
        match applied(known, symbol, values[values.len() - 2], values[values.len() - 1]) {
            Ok(result) => Ok(values.take(values.len() - 2).push(result)),
            Err(stop) => Err(stop),
        }
    }
}

/// The stacks after `*` and `/` on top of the operator stack were applied, one after
/// another, until something else is on top: what `+` and `-` ask for when they arrive.
pub open spec fn yielded(known: Seq<Answer>, stacks: Stacks) -> Result<Stacks, Stop>
    decreases stacks.operators.len(),
{
    if stacks.operators.len() > 0 && (stacks.operators.last() == Symbol::Times
        || stacks.operators.last() == Symbol::Slash) {
        match reduced(known, stacks.operators.last(), stacks.values) {
            Ok(values) => yielded(
                known,
                Stacks { operators: stacks.operators.drop_last(), values },
            ),
            Err(stop) => Err(stop),
        }
    } else {
        Ok(stacks)
    }
}

/// The stacks after a closing parenthesis: the operators on top are applied, one after
/// another, down to the nearest opening parenthesis, which is dropped. Where there is
/// none the whole operator stack is applied.
pub open spec fn closed(known: Seq<Answer>, stacks: Stacks) -> Result<Stacks, Stop>
    decreases stacks.operators.len(),
{
    if stacks.operators.len() == 0 {
        Ok(stacks)
    } else if stacks.operators.last() == Symbol::Open {
        Ok(Stacks { operators: stacks.operators.drop_last(), values: stacks.values })
    } else {
        match reduced(known, stacks.operators.last(), stacks.values) {
            Ok(values) => closed(known, Stacks { operators: stacks.operators.drop_last(), values }),
            Err(stop) => Err(stop),
        }
    }
}

/// The value stack at the end of the input: the operators that wait are applied from the
/// top down. An opening parenthesis that waits has no partner.
pub open spec fn drained(known: Seq<Answer>, stacks: Stacks) -> Result<Seq<Seq<char>>, Stop>
    decreases stacks.operators.len(),
{
    if stacks.operators.len() == 0 {
        Ok(stacks.values)
    } else if stacks.operators.last() == Symbol::Open {
        Err(Stop::Failed("mismatched parentheses"@))
    } else {
        match reduced(known, stacks.operators.last(), stacks.values) {
            Ok(values) => drained(
                known,
                Stacks { operators: stacks.operators.drop_last(), values },
            ),
            Err(stop) => Err(stop),
        }
    }
}

/// The double that an operand stands for: the token itself where it is a numeral, else
/// the variable of that name, which has to be an `Int` or a `Float` whose text is a numeral.
pub open spec fn operand(known: Seq<Answer>, store: Seq<Binding>, token: Seq<char>) -> Result<
    Seq<char>,
    Stop,
> {
    match number_of(known, token) {
        Err(stop) => Err(stop),
        Ok(Some(number)) => Ok(number),
        Ok(None) => match lookup(store, token) {
            None => Err(Stop::Failed("invalid token: "@ + token)),
            Some(binding) => if binding.datatype == DataType::Int || binding.datatype
                == DataType::Float {
                match number_of(known, binding.value) {
                    Err(stop) => Err(stop),
                    Ok(Some(number)) => Ok(number),
                    Ok(None) => Err(Stop::Failed("invalid variable: "@ + token)),
                }
            } else {
                Err(
                    Stop::Failed(
                        "variable '"@ + token + "' must be either an int or a float"@,
                    ),
                )
            },
        },
    }
}

/// The stacks after one more token.
pub open spec fn stepped(
    known: Seq<Answer>,
    store: Seq<Binding>,
    token: Seq<char>,
    stacks: Stacks,
) -> Result<Stacks, Stop> {
    if token == ")"@ {
        closed(known, stacks)
    } else {
        match symbol_of(token) {
            Some(Symbol::Open) => Ok(
                Stacks { operators: stacks.operators.push(Symbol::Open), values: stacks.values },
            ),
            Some(symbol) => {
                let before = if symbol == Symbol::Plus || symbol == Symbol::Minus {
                    yielded(known, stacks)
                } else {
                    Ok(stacks)
                };
                match before {
                    Ok(s) => Ok(Stacks { operators: s.operators.push(symbol), values: s.values }),
                    Err(stop) => Err(stop),
                }
            },
            None => match operand(known, store, token) {
                Ok(number) => Ok(
                    Stacks { operators: stacks.operators, values: stacks.values.push(number) },
                ),
                Err(stop) => Err(stop),
            },
        }
    }
}

/// The stacks after the tokens from position `i` on.
pub open spec fn scanned(
    known: Seq<Answer>,
    store: Seq<Binding>,
    tokens: Seq<Seq<char>>,
    i: int,
    stacks: Stacks,
) -> Result<Stacks, Stop>
    decreases tokens.len() - i,
{
    if i < 0 || i >= tokens.len() {
        Ok(stacks)
    } else {
        match stepped(known, store, tokens[i], stacks) {
            Ok(next) => scanned(known, store, tokens, i + 1, next),
            Err(stop) => Err(stop),
        }
    }
}

/// The double that the tokens evaluate to, as it is written.
pub open spec fn evaluated(known: Seq<Answer>, store: Seq<Binding>, tokens: Seq<Seq<char>>)
    -> Result<Seq<char>, Stop> {
    match scanned(
        known,
        store,
        tokens,
        0,
        Stacks { operators: Seq::empty(), values: Seq::empty() },
    ) {
        Err(stop) => Err(stop),
        Ok(stacks) => match drained(known, stacks) {
            Err(stop) => Err(stop),
            Ok(values) => if values.len() == 1 {
                Ok(values[0])
            } else {
                Err(Stop::Failed("invalid expression"@))
            },
        },
    }
}


fn symbol_for(token: &Vec<char>) -> (r: Option<Symbol>)
    ensures
        r == symbol_of(token@),
{
    if same_text(token, &chars_of("+")) {
        Some(Symbol::Plus)
    } else if same_text(token, &chars_of("-")) {
        Some(Symbol::Minus)
    } else if same_text(token, &chars_of("*")) {
        Some(Symbol::Times)
    } else if same_text(token, &chars_of("/")) {
        Some(Symbol::Slash)
    } else if same_text(token, &chars_of("^")) {
        Some(Symbol::Caret)
    } else if same_text(token, &chars_of("%")) {
        Some(Symbol::Percent)
    } else if same_text(token, &chars_of("(")) {
        Some(Symbol::Open)
    } else {
        None
    }
}

fn apply(known: &[Fact], symbol: Symbol, a: &Vec<char>, b: &Vec<char>) -> (r: Result<
    Vec<char>,
    Halt,
>)
    ensures
        outcome(r) == applied(views(known@), symbol, a@, b@),
{
    match symbol {
        Symbol::Plus => read_result(known, Operator::Add, a, b),
        Symbol::Minus => read_result(known, Operator::Subtract, a, b),
        Symbol::Times => read_result(known, Operator::Multiply, a, b),
        Symbol::Slash => read_result(known, Operator::Divide, a, b),
        Symbol::Percent => read_result(known, Operator::Remainder, a, b),
        Symbol::Caret => match read_result(known, Operator::Multiply, a, a) {
            Ok(square) => read_result(known, Operator::Multiply, &square, b),
            Err(halt) => Err(halt),
        },
        Symbol::Open => Err(failed(&chars_of("invalid operator: ("))),
    }
}

fn reduce(known: &[Fact], symbol: Symbol, values: &mut Vec<Vec<char>>) -> (r: Result<(), Halt>)
    ensures
        match r {
            Ok(_) => reduced(views(known@), symbol, views(old(values)@)) == Ok::<_, Stop>(
                views(final(values)@),
            ),
            Err(halt) => reduced(views(known@), symbol, views(old(values)@)) == Err::<
                Seq<Seq<char>>,
                _,
            >(halt@),
        },
{
    let n = values.len();
    if n < 2 {
        return Err(failed(&chars_of("invalid expression")));
    }
    let ghost before = views(values@);
    match apply(known, symbol, &values[n - 2], &values[n - 1]) {
        Ok(result) => {
            let ghost written = result@;
            values.pop();
            values.pop();
            values.push(result);
            assert(views(values@) =~= before.take(n - 2).push(written));
            Ok(())
        },
        Err(halt) => Err(halt),
    }
}

#[verifier::loop_isolation(false)]
fn give_way(known: &[Fact], operators: &mut Vec<Symbol>, values: &mut Vec<Vec<char>>) -> (r:
    Result<(), Halt>)
    ensures
        match r {
            Ok(_) => yielded(
                views(known@),
                Stacks { operators: old(operators)@, values: views(old(values)@) },
            ) == Ok::<_, Stop>(
                Stacks { operators: final(operators)@, values: views(final(values)@) },
            ),
            Err(halt) => yielded(
                views(known@),
                Stacks { operators: old(operators)@, values: views(old(values)@) },
            ) == Err::<Stacks, _>(halt@),
        },
{
    let ghost start = Stacks { operators: operators@, values: views(values@) };
    while operators.len() > 0 && (operators[operators.len() - 1] == Symbol::Times
        || operators[operators.len() - 1] == Symbol::Slash)
        invariant
            yielded(views(known@), start) == yielded(
                views(known@),
                Stacks { operators: operators@, values: views(values@) },
            ),
        decreases operators.len(),
    {
        let symbol = operators[operators.len() - 1];
        match reduce(known, symbol, values) {
            Ok(_) => {
                operators.pop();
            },
            Err(halt) => {
                return Err(halt);
            },
        }
    }
    Ok(())
}

#[verifier::loop_isolation(false)]
fn close_group(known: &[Fact], operators: &mut Vec<Symbol>, values: &mut Vec<Vec<char>>) -> (r:
    Result<(), Halt>)
    ensures
        match r {
            Ok(_) => closed(
                views(known@),
                Stacks { operators: old(operators)@, values: views(old(values)@) },
            ) == Ok::<_, Stop>(
                Stacks { operators: final(operators)@, values: views(final(values)@) },
            ),
            Err(halt) => closed(
                views(known@),
                Stacks { operators: old(operators)@, values: views(old(values)@) },
            ) == Err::<Stacks, _>(halt@),
        },
{
    let ghost start = Stacks { operators: operators@, values: views(values@) };
    while operators.len() > 0
        invariant
            closed(views(known@), start) == closed(
                views(known@),
                Stacks { operators: operators@, values: views(values@) },
            ),
        decreases operators.len(),
    {
        let symbol = operators[operators.len() - 1];
        if symbol == Symbol::Open {
            operators.pop();
            return Ok(());
        }
        match reduce(known, symbol, values) {
            Ok(_) => {
                operators.pop();
            },
            Err(halt) => {
                return Err(halt);
            },
        }
    }
    Ok(())
}

#[verifier::loop_isolation(false)]
fn drain(known: &[Fact], operators: &mut Vec<Symbol>, values: &mut Vec<Vec<char>>) -> (r:
    Result<(), Halt>)
    ensures
        match r {
            Ok(_) => drained(
                views(known@),
                Stacks { operators: old(operators)@, values: views(old(values)@) },
            ) == Ok::<_, Stop>(views(final(values)@)),
            Err(halt) => drained(
                views(known@),
                Stacks { operators: old(operators)@, values: views(old(values)@) },
            ) == Err::<Seq<Seq<char>>, _>(halt@),
        },
{
    let ghost start = Stacks { operators: operators@, values: views(values@) };
    while operators.len() > 0
        invariant
            drained(views(known@), start) == drained(
                views(known@),
                Stacks { operators: operators@, values: views(values@) },
            ),
        decreases operators.len(),
    {
        let symbol = operators[operators.len() - 1];
        if symbol == Symbol::Open {
            return Err(failed(&chars_of("mismatched parentheses")));
        }
        match reduce(known, symbol, values) {
            Ok(_) => {
                operators.pop();
            },
            Err(halt) => {
                return Err(halt);
            },
        }
    }
    Ok(())
}

fn resolve(known: &[Fact], variables: &[Variable], token: &Vec<char>) -> (r: Result<
    Vec<char>,
    Halt,
>)
    ensures
        outcome(r) == operand(views(known@), views(variables@), token@),
{
    match read_number(known, token) {
        Err(halt) => Err(halt),
        Ok(Some(number)) => Ok(number),
        Ok(None) => {
            let name = text_of(token);
            match get_variable(name.as_str(), variables) {
                None => Err(failed_with("invalid token: ", token)),
                Some(variable) => {
                    if variable.datatype == DataType::Int || variable.datatype == DataType::Float {
                        let text = chars_of(variable.value.as_str());
                        match read_number(known, &text) {
                            Err(halt) => Err(halt),
                            Ok(Some(number)) => Ok(number),
                            Ok(None) => Err(failed_with("invalid variable: ", token)),
                        }
                    } else {
                        let mut message = chars_of("variable '");
                        append_text(&mut message, token);
                        append_text(&mut message, &chars_of("' must be either an int or a float"));
                        Err(failed(&message))
                    }
                },
            }
        },
    }
}

fn step(
    known: &[Fact],
    variables: &[Variable],
    token: &Vec<char>,
    operators: &mut Vec<Symbol>,
    values: &mut Vec<Vec<char>>,
) -> (r: Result<(), Halt>)
    ensures
        match r {
            Ok(_) => stepped(
                views(known@),
                views(variables@),
                token@,
                Stacks { operators: old(operators)@, values: views(old(values)@) },
            ) == Ok::<_, Stop>(
                Stacks { operators: final(operators)@, values: views(final(values)@) },
            ),
            Err(halt) => stepped(
                views(known@),
                views(variables@),
                token@,
                Stacks { operators: old(operators)@, values: views(old(values)@) },
            ) == Err::<Stacks, _>(halt@),
        },
{
    if same_text(token, &chars_of(")")) {
        return close_group(known, operators, values);
    }
    match symbol_for(token) {
        Some(Symbol::Open) => {
            operators.push(Symbol::Open);
            Ok(())
        },
        Some(symbol) => {
            if symbol == Symbol::Plus || symbol == Symbol::Minus {
                match give_way(known, operators, values) {
                    Ok(_) => {},
                    Err(halt) => {
                        return Err(halt);
                    },
                }
            }
            operators.push(symbol);
            Ok(())
        },
        None => match resolve(known, variables, token) {
            Ok(number) => {
                let ghost before = views(values@);
                let ghost written = number@;
                values.push(number);
                assert(views(values@) =~= before.push(written));
                Ok(())
            },
            Err(halt) => Err(halt),
        },
    }
}

/// Evaluates the tokens of an infix expression over doubles.
#[verifier::loop_isolation(false)]
pub(crate) fn evaluate_tokens(tokens: &Vec<Vec<char>>, variables: &[Variable], known: &[Fact]) -> (r:
    Result<Vec<char>, Halt>)
    ensures
        outcome(r) == evaluated(views(known@), views(variables@), views(tokens@)),
{
    let mut operators: Vec<Symbol> = Vec::new();
    let mut values: Vec<Vec<char>> = Vec::new();
    let ghost start = Stacks { operators: Seq::empty(), values: Seq::empty() };
    assert(views(values@) =~= Seq::<Seq<char>>::empty());
    let mut i: usize = 0;
    while i < tokens.len()
        invariant
            i <= tokens.len(),
            scanned(views(known@), views(variables@), views(tokens@), 0, start) == scanned(
                views(known@),
                views(variables@),
                views(tokens@),
                i as int,
                Stacks { operators: operators@, values: views(values@) },
            ),
        decreases tokens.len() - i,
    {
        match step(known, variables, &tokens[i], &mut operators, &mut values) {
            Ok(_) => {},
            Err(halt) => {
                return Err(halt);
            },
        }
        i += 1;
    }
    match drain(known, &mut operators, &mut values) {
        Ok(_) => {},
        Err(halt) => {
            return Err(halt);
        },
    }
    if values.len() != 1 {
        return Err(failed(&chars_of("invalid expression")));
    }
    Ok(values.pop().unwrap())
}

/// The characters of each of the given slices.
pub(crate) fn token_chars(tokens: &Vec<&str>) -> (out: Vec<Vec<char>>)
    ensures
        views(out@) == views(tokens@),
{
    let mut out: Vec<Vec<char>> = Vec::new();
    let mut i: usize = 0;
    while i < tokens.len()
        invariant
            i <= tokens.len(),
            views(out@) == views(tokens@).take(i as int),
        decreases tokens.len() - i,
    {
        let ghost before = views(out@);
        let token = chars_of(tokens[i]);
        let ghost read = token@;
        out.push(token);
        assert(views(out@) =~= before.push(read));
        assert(views(tokens@).take(i + 1) =~= views(tokens@).take(i as int).push(
            views(tokens@)[i as int],
        ));
        i += 1;
    }
    assert(views(tokens@).take(tokens.len() as int) =~= views(tokens@));
    out
}

/// Evaluates an infix expression over doubles, given as its tokens: numerals, the
/// operators `+ - * / ^ %`, parentheses, and names of `Int` and `Float` variables.
///
/// Returns the result as it is written. The input is refused with a message where a token
/// is none of these, a variable is of another kind or holds no numeral, an opening
/// parenthesis has no partner, an operator lacks an operand, or more than one value is
/// left. Where a fact about doubles is missing from `known`, the first one is asked for.
pub fn shunting_yard(tokens: Vec<&str>, variables: &[Variable], known: &[Fact]) -> (r: Result<
    String,
    Halt,
>)
    ensures
        outcome(r) == evaluated(views(known@), views(variables@), views(tokens@)),
{
    let tokens = token_chars(&tokens);
    match evaluate_tokens(&tokens, variables, known) {
        Ok(number) => Ok(text_of(&number)),
        Err(halt) => Err(halt),
    }
}


/// An operator that was applied gives the same when facts are added.
pub proof fn lemma_reduced_stays(
    known: Seq<Answer>,
    more: Seq<Answer>,
    symbol: Symbol,
    values: Seq<Seq<char>>,
)
    requires
        extends(more, known),
        finished(reduced(known, symbol, values)),
    ensures
        reduced(more, symbol, values) == reduced(known, symbol, values),
{
    lemma_facts_stay(known, more);
}

proof fn lemma_yielded_stays(known: Seq<Answer>, more: Seq<Answer>, stacks: Stacks)
    requires
        extends(more, known),
        finished(yielded(known, stacks)),
    ensures
        yielded(more, stacks) == yielded(known, stacks),
    decreases stacks.operators.len(),
{
    if stacks.operators.len() > 0 && (stacks.operators.last() == Symbol::Times
        || stacks.operators.last() == Symbol::Slash) {
        lemma_reduced_stays(known, more, stacks.operators.last(), stacks.values);
        match reduced(known, stacks.operators.last(), stacks.values) {
            Ok(values) => {
                lemma_yielded_stays(
                    known,
                    more,
                    Stacks { operators: stacks.operators.drop_last(), values },
                );
            },
            Err(_) => {},
        }
    }
}

proof fn lemma_closed_stays(known: Seq<Answer>, more: Seq<Answer>, stacks: Stacks)
    requires
        extends(more, known),
        finished(closed(known, stacks)),
    ensures
        closed(more, stacks) == closed(known, stacks),
    decreases stacks.operators.len(),
{
    if stacks.operators.len() > 0 && stacks.operators.last() != Symbol::Open {
        lemma_reduced_stays(known, more, stacks.operators.last(), stacks.values);
        match reduced(known, stacks.operators.last(), stacks.values) {
            Ok(values) => {
                lemma_closed_stays(
                    known,
                    more,
                    Stacks { operators: stacks.operators.drop_last(), values },
                );
            },
            Err(_) => {},
        }
    }
}

proof fn lemma_drained_stays(known: Seq<Answer>, more: Seq<Answer>, stacks: Stacks)
    requires
        extends(more, known),
        finished(drained(known, stacks)),
    ensures
        drained(more, stacks) == drained(known, stacks),
    decreases stacks.operators.len(),
{
    if stacks.operators.len() > 0 && stacks.operators.last() != Symbol::Open {
        lemma_reduced_stays(known, more, stacks.operators.last(), stacks.values);
        match reduced(known, stacks.operators.last(), stacks.values) {
            Ok(values) => {
                lemma_drained_stays(
                    known,
                    more,
                    Stacks { operators: stacks.operators.drop_last(), values },
                );
            },
            Err(_) => {},
        }
    }
}

proof fn lemma_stepped_stays(
    known: Seq<Answer>,
    more: Seq<Answer>,
    store: Seq<Binding>,
    token: Seq<char>,
    stacks: Stacks,
)
    requires
        extends(more, known),
        finished(stepped(known, store, token, stacks)),
    ensures
        stepped(more, store, token, stacks) == stepped(known, store, token, stacks),
{
    lemma_facts_stay(known, more);
    if token == ")"@ {
        lemma_closed_stays(known, more, stacks);
    } else {
        match symbol_of(token) {
            Some(Symbol::Plus) => {
                lemma_yielded_stays(known, more, stacks);
            },
            Some(Symbol::Minus) => {
                lemma_yielded_stays(known, more, stacks);
            },
            _ => {},
        }
    }
}

proof fn lemma_scanned_stays(
    known: Seq<Answer>,
    more: Seq<Answer>,
    store: Seq<Binding>,
    tokens: Seq<Seq<char>>,
    i: int,
    stacks: Stacks,
)
    requires
        extends(more, known),
        finished(scanned(known, store, tokens, i, stacks)),
    ensures
        scanned(more, store, tokens, i, stacks) == scanned(known, store, tokens, i, stacks),
    decreases tokens.len() - i,
{
    if 0 <= i < tokens.len() {
        lemma_stepped_stays(known, more, store, tokens[i], stacks);
        match stepped(known, store, tokens[i], stacks) {
            Ok(next) => {
                lemma_scanned_stays(known, more, store, tokens, i + 1, next);
            },
            Err(_) => {},
        }
    }
}

/// An expression that was evaluated, or refused, comes out the same when facts about
/// doubles are added to those known.
pub proof fn lemma_evaluated_stays(
    known: Seq<Answer>,
    more: Seq<Answer>,
    store: Seq<Binding>,
    tokens: Seq<Seq<char>>,
)
    requires
        extends(more, known),
        finished(evaluated(known, store, tokens)),
    ensures
        evaluated(more, store, tokens) == evaluated(known, store, tokens),
{
    let start = Stacks { operators: Seq::empty(), values: Seq::empty() };
    lemma_scanned_stays(known, more, store, tokens, 0, start);
    match scanned(known, store, tokens, 0, start) {
        Ok(stacks) => {
            lemma_drained_stays(known, more, stacks);
        },
        Err(_) => {},
    }
}


proof fn lemma_yielded_asks_anew(known: Seq<Answer>, stacks: Stacks)
    ensures
        asks_anew(known, yielded(known, stacks)),
    decreases stacks.operators.len(),
{
    lemma_facts_ask_anew(known);
    if stacks.operators.len() > 0 && (stacks.operators.last() == Symbol::Times
        || stacks.operators.last() == Symbol::Slash) {
        match reduced(known, stacks.operators.last(), stacks.values) {
            Ok(values) => {
                lemma_yielded_asks_anew(
                    known,
                    Stacks { operators: stacks.operators.drop_last(), values },
                );
            },
            Err(_) => {},
        }
    }
}

proof fn lemma_closed_asks_anew(known: Seq<Answer>, stacks: Stacks)
    ensures
        asks_anew(known, closed(known, stacks)),
    decreases stacks.operators.len(),
{
    lemma_facts_ask_anew(known);
    if stacks.operators.len() > 0 && stacks.operators.last() != Symbol::Open {
        match reduced(known, stacks.operators.last(), stacks.values) {
            Ok(values) => {
                lemma_closed_asks_anew(
                    known,
                    Stacks { operators: stacks.operators.drop_last(), values },
                );
            },
            Err(_) => {},
        }
    }
}

proof fn lemma_drained_asks_anew(known: Seq<Answer>, stacks: Stacks)
    ensures
        asks_anew(known, drained(known, stacks)),
    decreases stacks.operators.len(),
{
    lemma_facts_ask_anew(known);
    if stacks.operators.len() > 0 && stacks.operators.last() != Symbol::Open {
        match reduced(known, stacks.operators.last(), stacks.values) {
            Ok(values) => {
                lemma_drained_asks_anew(
                    known,
                    Stacks { operators: stacks.operators.drop_last(), values },
                );
            },
            Err(_) => {},
        }
    }
}

proof fn lemma_scanned_asks_anew(
    known: Seq<Answer>,
    store: Seq<Binding>,
    tokens: Seq<Seq<char>>,
    i: int,
    stacks: Stacks,
)
    ensures
        asks_anew(known, scanned(known, store, tokens, i, stacks)),
    decreases tokens.len() - i,
{
    lemma_facts_ask_anew(known);
    if 0 <= i < tokens.len() {
        lemma_closed_asks_anew(known, stacks);
        lemma_yielded_asks_anew(known, stacks);
        match stepped(known, store, tokens[i], stacks) {
            Ok(next) => {
                lemma_scanned_asks_anew(known, store, tokens, i + 1, next);
            },
            Err(_) => {},
        }
    }
}

/// An expression asks only for what is not known.
pub proof fn lemma_evaluated_asks_anew(
    known: Seq<Answer>,
    store: Seq<Binding>,
    tokens: Seq<Seq<char>>,
)
    ensures
        asks_anew(known, evaluated(known, store, tokens)),
{
    let start = Stacks { operators: Seq::empty(), values: Seq::empty() };
    lemma_scanned_asks_anew(known, store, tokens, 0, start);
    match scanned(known, store, tokens, 0, start) {
        Ok(stacks) => {
            lemma_drained_asks_anew(known, stacks);
        },
        Err(_) => {},
    }
}

} // verus!
