//! Arithmetic on doubles is not done here. A double is held as the text that writes it,
//! and whoever calls the evaluator supplies what it needs to know of doubles as a list of
//! facts: which texts are numerals of doubles, and what an operation on two doubles gives.
//! Where a fact is missing the evaluator stops and names it.

use vstd::prelude::*;
use crate::text::{chars_of, same_text, text_of, views};

verus! {

/// An operation on two doubles.
#[derive(Debug, Clone, Copy, PartialEq, Eq, Structural)]
pub enum Operator {
    Add,
    Subtract,
    Multiply,
    Divide,
    Remainder,
}

/// A question about doubles.
#[derive(Debug, Clone, PartialEq)]
pub enum Request {
    /// Is this text the numeral of a double, and how is that double written?
    Read(String),
    /// What does the operation give on these two doubles, each given as it is written?
    Apply(Operator, String, String),
}

/// The answer to a question about doubles.
#[derive(Debug, Clone, PartialEq)]
pub enum Fact {
    /// The text is the numeral of the double that is written `number`, or of none.
    Read { text: String, number: Option<String> },
    /// The operation on the doubles written `left` and `right` gives the one written `result`.
    Apply { operator: Operator, left: String, right: String, result: String },
}

/// What a `Request` stands for.
pub ghost enum Query {
    Read(Seq<char>),
    Apply(Operator, Seq<char>, Seq<char>),
}

/// What a `Fact` stands for.
pub ghost enum Answer {
    Read { text: Seq<char>, number: Option<Seq<char>> },
    Apply { operator: Operator, left: Seq<char>, right: Seq<char>, result: Seq<char> },
}

impl View for Request {
    type V = Query;

    open spec fn view(&self) -> Query {
        match self {
            Request::Read(text) => Query::Read(text@),
            Request::Apply(operator, left, right) => Query::Apply(*operator, left@, right@),
        }
    }
}

impl View for Fact {
    type V = Answer;

    open spec fn view(&self) -> Answer {
        match self {
            Fact::Read { text, number } => Answer::Read {
                text: text@,
                number: match number {
                    Some(n) => Some(n@),
                    None => None,
                },
            },
            Fact::Apply { operator, left, right, result } => Answer::Apply {
                operator: *operator,
                left: left@,
                right: right@,
                result: result@,
            },
        }
    }
}

/// Why an evaluation gave no value.
#[derive(Debug, Clone, PartialEq)]
pub enum Halt {
    /// The input is refused, with this message.
    Failed(String),
    /// A fact about doubles is missing: with it added to those known, the evaluation goes
    /// further.
    Needs(Request),
}

/// What a `Halt` stands for.
pub ghost enum Stop {
    Failed(Seq<char>),
    Needs(Query),
}

impl View for Halt {
    type V = Stop;

    open spec fn view(&self) -> Stop {
        match self {
            Halt::Failed(message) => Stop::Failed(message@),
            Halt::Needs(request) => Stop::Needs(request@),
        }
    }
}

/// What a result stands for: the view of its value, or of its halt.
pub open spec fn outcome<T: View>(r: Result<T, Halt>) -> Result<T::V, Stop> {
    match r {
        Ok(value) => Ok(value@),
        Err(halt) => Err(halt@),
    }
}

/// Whether a fact answers a question.
pub open spec fn answers(answer: Answer, query: Query) -> bool {
    match (answer, query) {
        (Answer::Read { text, .. }, Query::Read(asked)) => text == asked,
        (Answer::Apply { operator, left, right, .. }, Query::Apply(op, a, b)) => operator == op
            && left == a && right == b,
        _ => false,
    }
}

/// The first fact at or after position `i` that answers the question.
pub open spec fn answer_from(known: Seq<Answer>, query: Query, i: int) -> Option<Answer>
    decreases known.len() - i,
{
    if i < 0 || i >= known.len() {
        None
    } else if answers(known[i], query) {
        Some(known[i])
    } else {
        answer_from(known, query, i + 1)
    }
}

/// What is known of `text` as a numeral: that it is the numeral of the double written
/// `Ok(Some(..))`, that it is the numeral of none (`Ok(None)`), or nothing yet.
pub open spec fn number_of(known: Seq<Answer>, text: Seq<char>) -> Result<Option<Seq<char>>, Stop> {
    match answer_from(known, Query::Read(text), 0) {
        Some(Answer::Read { number, .. }) => Ok(number),
        _ => Err(Stop::Needs(Query::Read(text))),
    }
}

/// What is known of an operation on two doubles: its result as it is written, or nothing yet.
pub open spec fn result_of(known: Seq<Answer>, operator: Operator, left: Seq<char>, right: Seq<char>)
    -> Result<Seq<char>, Stop> {
    match answer_from(known, Query::Apply(operator, left, right), 0) {
        Some(Answer::Apply { result, .. }) => Ok(result),
        _ => Err(Stop::Needs(Query::Apply(operator, left, right))),
    }
}

/// The halt that refuses the input with the given message.
pub(crate) fn failed(message: &Vec<char>) -> (halt: Halt)
    ensures
        halt@ == Stop::Failed(message@),
{
    Halt::Failed(text_of(message))
}

/// The halt that refuses the input with `prefix` followed by `detail`.
pub(crate) fn failed_with(prefix: &str, detail: &Vec<char>) -> (halt: Halt)
    ensures
        halt@ == Stop::Failed(prefix@ + detail@),
{
    let mut message = chars_of(prefix);
    crate::text::append_text(&mut message, detail);
    Halt::Failed(text_of(&message))
}

/// What the facts say of `text` as a numeral.
pub(crate) fn read_number(known: &[Fact], text: &Vec<char>) -> (r: Result<Option<Vec<char>>, Halt>)
    ensures
        match r {
            Ok(Some(n)) => number_of(views(known@), text@) == Ok::<_, Stop>(Some(n@)),
            Ok(None) => number_of(views(known@), text@) == Ok::<Option<Seq<char>>, Stop>(None),
            Err(halt) => number_of(views(known@), text@) == Err::<Option<Seq<char>>, _>(halt@),
        },
{
    let mut i: usize = 0;
    while i < known.len()
        invariant
            i <= known.len(),
            answer_from(views(known@), Query::Read(text@), 0) == answer_from(
                views(known@),
                Query::Read(text@),
                i as int,
            ),
        decreases known.len() - i,
    {
        match &known[i] {
            Fact::Read { text: asked, number } => {
                let asked_chars = chars_of(asked.as_str());
                if same_text(&asked_chars, text) {
                    return match number {
                        Some(n) => Ok(Some(chars_of(n.as_str()))),
                        None => Ok(None),
                    };
                }
            },
            _ => {},
        }
        i += 1;
    }
    Err(Halt::Needs(Request::Read(text_of(text))))
}

/// What the facts say of an operation on two doubles.
pub(crate) fn read_result(known: &[Fact], operator: Operator, left: &Vec<char>, right: &Vec<char>) -> (r:
    Result<Vec<char>, Halt>)
    ensures
        match r {
            Ok(n) => result_of(views(known@), operator, left@, right@) == Ok::<_, Stop>(n@),
            Err(halt) => result_of(views(known@), operator, left@, right@) == Err::<Seq<char>, _>(
                halt@,
            ),
        },
{
    let mut i: usize = 0;
    while i < known.len()
        invariant
            i <= known.len(),
            answer_from(views(known@), Query::Apply(operator, left@, right@), 0) == answer_from(
                views(known@),
                Query::Apply(operator, left@, right@),
                i as int,
            ),
        decreases known.len() - i,
    {
        match &known[i] {
            Fact::Apply { operator: op, left: a, right: b, result } => {
                let a_chars = chars_of(a.as_str());
                let b_chars = chars_of(b.as_str());
                if *op == operator && same_text(&a_chars, left) && same_text(&b_chars, right) {
                    return Ok(chars_of(result.as_str()));
                }
            },
            _ => {},
        }
        i += 1;
    }
    Err(Halt::Needs(Request::Apply(operator, text_of(left), text_of(right))))
}


/// Whether `more` holds the facts of `known`, in their order, and then others.
pub open spec fn extends(more: Seq<Answer>, known: Seq<Answer>) -> bool {
    known.len() <= more.len() && more.take(known.len() as int) == known
}

/// Whether an evaluation came to an end: it gave a value or refused its input.
pub open spec fn finished<T>(r: Result<T, Stop>) -> bool {
    !(r matches Err(Stop::Needs(_)))
}

/// A question that is answered stays answered, and in the same way, when facts are added.
pub proof fn lemma_answer_stays(known: Seq<Answer>, more: Seq<Answer>, query: Query, i: int)
    requires
        extends(more, known),
        0 <= i,
        answer_from(known, query, i) is Some,
    ensures
        answer_from(more, query, i) == answer_from(known, query, i),
    decreases known.len() - i,
{
    if i < known.len() {
        assert(more.take(known.len() as int)[i] == more[i]);
        if !answers(known[i], query) {
            lemma_answer_stays(known, more, query, i + 1);
        }
    }
}

/// What is known of a numeral and of an operation stays known when facts are added.
pub proof fn lemma_facts_stay(known: Seq<Answer>, more: Seq<Answer>)
    requires
        extends(more, known),
    ensures
        forall|text: Seq<char>|
            finished(#[trigger] number_of(known, text)) ==> number_of(more, text) == number_of(
                known,
                text,
            ),
        forall|operator: Operator, left: Seq<char>, right: Seq<char>|
            finished(#[trigger] result_of(known, operator, left, right)) ==> result_of(
                more,
                operator,
                left,
                right,
            ) == result_of(known, operator, left, right),
{
    assert forall|text: Seq<char>|
        finished(#[trigger] number_of(known, text)) implies number_of(more, text) == number_of(
        known,
        text,
    ) by {
        lemma_answer_stays(known, more, Query::Read(text), 0);
    }
    assert forall|operator: Operator, left: Seq<char>, right: Seq<char>|
        finished(#[trigger] result_of(known, operator, left, right)) implies result_of(
        more,
        operator,
        left,
        right,
    ) == result_of(known, operator, left, right) by {
        lemma_answer_stays(known, more, Query::Apply(operator, left, right), 0);
    }
}

/// A fact that is added where its question is not answered yet answers that question.
pub proof fn lemma_fact_answers(known: Seq<Answer>, answer: Answer, query: Query, i: int)
    requires
        0 <= i <= known.len(),
        answers(answer, query),
    ensures
        answer_from(known.push(answer), query, i) is Some,
        answer_from(known, query, i) is None ==> answer_from(known.push(answer), query, i) == Some(
            answer,
        ),
    decreases known.len() - i,
{
    if i < known.len() {
        assert(known.push(answer)[i] == known[i]);
        if !answers(known[i], query) {
            lemma_fact_answers(known, answer, query, i + 1);
        }
    }
}


/// Whether what an evaluation asks for, if it asks, is not among the facts known.
pub open spec fn asks_anew<T>(known: Seq<Answer>, r: Result<T, Stop>) -> bool {
    match r {
        Err(Stop::Needs(query)) => answer_from(known, query, 0) is None,
        _ => true,
    }
}

/// A fact that answers, found from some position on, is of the kind of the question.
pub proof fn lemma_answer_fits(known: Seq<Answer>, query: Query, i: int)
    requires
        0 <= i,
    ensures
        match answer_from(known, query, i) {
            Some(answer) => answers(answer, query),
            None => true,
        },
    decreases known.len() - i,
{
    if i < known.len() && !answers(known[i], query) {
        lemma_answer_fits(known, query, i + 1);
    }
}

/// Only what is not known is asked for.
pub proof fn lemma_facts_ask_anew(known: Seq<Answer>)
    ensures
        forall|text: Seq<char>| asks_anew(known, #[trigger] number_of(known, text)),
        forall|operator: Operator, left: Seq<char>, right: Seq<char>|
            asks_anew(known, #[trigger] result_of(known, operator, left, right)),
{
    assert forall|text: Seq<char>| asks_anew(known, #[trigger] number_of(known, text)) by {
        lemma_answer_fits(known, Query::Read(text), 0);
    }
    assert forall|operator: Operator, left: Seq<char>, right: Seq<char>|
        asks_anew(known, #[trigger] result_of(known, operator, left, right)) by {
        lemma_answer_fits(known, Query::Apply(operator, left, right), 0);
    }
}

} // verus!
