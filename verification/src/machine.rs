//! Running source text: a stack of scripts whose lines are run one at a time, and a stack
//! of stores. A block that is called runs in a new, empty store on top of the stack, which
//! is dropped when the block ends; everything else runs in the store that is on top.
//!
//! The machine does one thing at each step and says what is to be done outside. What
//! comes of that is handed to the next step as an event.

use vstd::prelude::*;
use crate::action::{Action, Effect, complain, report, reported};
use crate::arithmetic::{Answer, Fact};
use crate::interpreter::{define_line, defined, interpret_line, interpreted};
use crate::store::{assign, assigned, lemma_assign_keeps_valid, valid_store};
use crate::interpreter::lemma_lines_keep_valid;
use crate::text::{append_text, chars_of, lines, strip_line_end, text_of, views};
use crate::text::{lines_of, without_line_end};
use crate::value::{Binding, DataType, Variable, variable_of};

verus! {

/// Lines that are being run.
#[derive(Debug, Clone, PartialEq)]
pub struct Frame {
    pub lines: Vec<String>,
    /// The position of the line that is run next.
    pub next: usize,
    pub input_name: String,
    /// The line number under which every line runs, unless the lines are counted.
    pub line_number: i32,
    /// Whether the lines are numbered from 1.
    pub counted: bool,
    /// Whether only the lines that begin with `let` or `block` are run.
    pub definitions_only: bool,
    /// Whether the lines run in a store of their own.
    pub fresh: bool,
}

/// What a `Frame` stands for.
pub ghost struct Script {
    pub lines: Seq<Seq<char>>,
    pub next: nat,
    pub input_name: Seq<char>,
    pub line_number: int,
    pub counted: bool,
    pub definitions_only: bool,
    pub fresh: bool,
}

impl View for Frame {
    type V = Script;

    open spec fn view(&self) -> Script {
        Script {
            lines: views(self.lines@),
            next: self.next as nat,
            input_name: self.input_name@,
            line_number: self.line_number as int,
            counted: self.counted,
            definitions_only: self.definitions_only,
            fresh: self.fresh,
        }
    }
}

/// What the machine waits for, after the command on the given line asked for it.
#[derive(Debug, Clone, PartialEq)]
pub enum Waiting {
    /// A line of input, to be bound to the name.
    Line { identifier: String, input_name: String, line_number: i32 },
    /// The text of the named file.
    File { name: String, definitions_only: bool, input_name: String, line_number: i32 },
}

/// What a `Waiting` stands for.
pub ghost enum Pending {
    Line { identifier: Seq<char>, input_name: Seq<char>, line_number: int },
    File { name: Seq<char>, definitions_only: bool, input_name: Seq<char>, line_number: int },
}

impl View for Waiting {
    type V = Pending;

    open spec fn view(&self) -> Pending {
        match self {
            Waiting::Line { identifier, input_name, line_number } => Pending::Line {
                identifier: identifier@,
                input_name: input_name@,
                line_number: *line_number as int,
            },
            Waiting::File { name, definitions_only, input_name, line_number } => Pending::File {
                name: name@,
                definitions_only: *definitions_only,
                input_name: input_name@,
                line_number: *line_number as int,
            },
        }
    }
}

/// What came of the last action.
#[derive(Debug, Clone, PartialEq)]
pub enum Event {
    /// Nothing: the action asked for nothing to be handed back.
    Resume,
    /// The line that was read from standard input, with its line end.
    Line(String),
    /// The text of the file that was read.
    Text(String),
    /// The reading failed, with this message.
    Failure(String),
    /// The fact about doubles that was asked for.
    Fact(Fact),
}

/// What an `Event` stands for.
pub ghost enum Occurrence {
    Resume,
    Line(Seq<char>),
    Text(Seq<char>),
    Failure(Seq<char>),
    Fact(Answer),
}

impl View for Event {
    type V = Occurrence;

    open spec fn view(&self) -> Occurrence {
        match self {
            Event::Resume => Occurrence::Resume,
            Event::Line(text) => Occurrence::Line(text@),
            Event::Text(text) => Occurrence::Text(text@),
            Event::Failure(message) => Occurrence::Failure(message@),
            Event::Fact(fact) => Occurrence::Fact(fact@),
        }
    }
}

/// The stores, the scripts, what is waited for, and the facts about doubles that are
/// known for the line that is being run.
pub struct Machine {
    stores: Vec<Vec<Variable>>,
    frames: Vec<Frame>,
    waiting: Option<Waiting>,
    known: Vec<Fact>,
}

/// What a `Machine` stands for. The last store is the one on top, and so is the last script.
pub ghost struct State {
    pub stores: Seq<Seq<Binding>>,
    pub frames: Seq<Script>,
    pub waiting: Option<Pending>,
    pub known: Seq<Answer>,
}

/// What each of the stores stands for.
pub open spec fn store_views(stores: Seq<Vec<Variable>>) -> Seq<Seq<Binding>> {
    Seq::new(stores.len(), |i: int| views(stores[i]@))
}

/// The number of scripts that run in a store of their own.
pub open spec fn fresh_count(frames: Seq<Script>) -> nat
    decreases frames.len(),
{
    if frames.len() == 0 {
        0
    } else {
        fresh_count(frames.drop_last()) + if frames.last().fresh {
            1nat
        } else {
            0nat
        }
    }
}

/// There is the store of the top level, and above it one store for each script that runs
/// in a store of its own; and every line number is that of a 32-bit integer.
pub open spec fn well_formed(state: State) -> bool {
    &&& state.stores.len() == 1 + fresh_count(state.frames)
    &&& forall|i: int|
        0 <= i < state.frames.len() ==> i32::MIN <= (#[trigger] state.frames[i]).line_number
            <= i32::MAX
}

/// Whether every store is as it should be.
pub open spec fn valid_stores(state: State) -> bool {
    forall|i: int| 0 <= i < state.stores.len() ==> valid_store(#[trigger] state.stores[i])
}

/// The number of the line at a position of a script whose lines are counted.
pub open spec fn line_count(position: nat) -> int {
    if position < i32::MAX {
        position as int + 1
    } else {
        i32::MAX as int
    }
}

/// The input name under which the lines of a block run.
pub open spec fn block_name(name: Seq<char>) -> Seq<char> {
    "<block "@ + name + ">"@
}

/// The state with another store in place of the one on top.
pub open spec fn with_top(state: State, store: Seq<Binding>) -> State {
    State { stores: state.stores.drop_last().push(store), ..state }
}

/// The state and the action after a line gave the effect: the script moves on to its next
/// line, the facts about doubles are forgotten, and lines that are to be run become the
/// script on top, those of a block in a new, empty store.
pub open spec fn settled(state: State, frame: Script, number: int, effect: Effect) -> (
    State,
    Effect,
) {
    let moved = State {
        frames: state.frames.drop_last().push(Script { next: frame.next + 1, ..frame }),
        known: Seq::empty(),
        ..state
    };
    match effect {
        Effect::Prompt { prompt, identifier } => (
            State {
                waiting: Some(
                    Pending::Line { identifier, input_name: frame.input_name, line_number: number },
                ),
                ..moved
            },
            effect,
        ),
        Effect::Load { name, definitions_only } => (
            State {
                waiting: Some(
                    Pending::File {
                        name,
                        definitions_only,
                        input_name: frame.input_name,
                        line_number: number,
                    },
                ),
                ..moved
            },
            effect,
        ),
        Effect::Run(lines) => (
            State {
                frames: moved.frames.push(
                    Script {
                        lines,
                        next: 0,
                        input_name: frame.input_name,
                        line_number: number,
                        counted: false,
                        definitions_only: false,
                        fresh: false,
                    },
                ),
                ..moved
            },
            Effect::Nothing,
        ),
        Effect::Call { name, lines } => (
            State {
                stores: moved.stores.push(Seq::empty()),
                frames: moved.frames.push(
                    Script {
                        lines,
                        next: 0,
                        input_name: block_name(name),
                        line_number: 0,
                        counted: true,
                        definitions_only: false,
                        fresh: true,
                    },
                ),
                ..moved
            },
            Effect::Nothing,
        ),
        _ => (moved, effect),
    }
}

/// The state and the action after the machine went on: with no script left it has
/// finished; a script that is at its end is dropped, with its store if it has one of its
/// own; else the next line of the script on top is run in the store on top. A line that
/// needs a fact about doubles stays the next line.
pub open spec fn advanced(state: State) -> (State, Effect) {
    if state.frames.len() == 0 {
        (State { known: Seq::empty(), ..state }, Effect::Finished)
    } else {
        let frame = state.frames.last();
        if frame.next >= frame.lines.len() {
            (
                State {
                    frames: state.frames.drop_last(),
                    stores: if frame.fresh {
                        state.stores.drop_last()
                    } else {
                        state.stores
                    },
                    ..state
                },
                Effect::Nothing,
            )
        } else {
            let line = frame.lines[frame.next as int];
            let number = if frame.counted {
                line_count(frame.next)
            } else {
                frame.line_number
            };
            let (store, effect) = if frame.definitions_only {
                defined(state.known, state.stores.last(), line, frame.input_name, number)
            } else {
                interpreted(state.known, state.stores.last(), line, frame.input_name, number)
            };
            match effect {
                Effect::Needs(_) => (with_top(state, store), effect),
                _ => settled(with_top(state, store), frame, number, effect),
            }
        }
    }
}

/// The name of the command that asks for a file.
pub open spec fn loader(definitions_only: bool) -> Seq<char> {
    if definitions_only {
        "import"@
    } else {
        "interpret"@
    }
}

/// The state and the action after an event.
///
/// Where a line of input is waited for, the line is bound, without its line end, to the
/// name as a `Str` in the store on top; any other event is a failure of `readln`. Where
/// the text of a file is waited for, its lines become the script on top, counted and
/// under the name of the file; a failure is reported under the command that asked, any
/// other event as a failure without a message. Else a fact is added to those known, and
/// the machine goes on.
#[verifier::opaque]
pub open spec fn stepped(state: State, event: Occurrence) -> (State, Effect) {
    let cleared = State { waiting: None, ..state };
    match state.waiting {
        Some(Pending::Line { identifier, input_name, line_number }) => match event {
            Occurrence::Line(text) => (
                with_top(
                    cleared,
                    assigned(
                        state.stores.last(),
                        Binding {
                            datatype: DataType::Str,
                            identifier,
                            value: without_line_end(text),
                        },
                    ),
                ),
                Effect::Nothing,
            ),
            _ => (cleared, reported(input_name, line_number, "readln"@, "invalid input"@)),
        },
        Some(Pending::File { name, definitions_only, input_name, line_number }) => match event {
            Occurrence::Text(text) => (
                State {
                    frames: state.frames.push(
                        Script {
                            lines: lines_of(text),
                            next: 0,
                            input_name: name,
                            line_number: 0,
                            counted: true,
                            definitions_only,
                            fresh: false,
                        },
                    ),
                    ..cleared
                },
                Effect::Nothing,
            ),
            Occurrence::Failure(message) => (
                cleared,
                reported(input_name, line_number, loader(definitions_only), message),
            ),
            _ => (
                cleared,
                reported(input_name, line_number, loader(definitions_only), Seq::empty()),
            ),
        },
        None => match event {
            Occurrence::Fact(answer) => advanced(
                State { known: state.known.push(answer), ..state },
            ),
            _ => advanced(state),
        },
    }
}


impl View for Machine {
    type V = State;

    closed spec fn view(&self) -> State {
        State {
            stores: store_views(self.stores@),
            frames: views(self.frames@),
            waiting: match self.waiting {
                Some(waiting) => Some(waiting@),
                None => None,
            },
            known: views(self.known@),
        }
    }
}

/// What the stores stand for after one more was put on top.
proof fn lemma_store_views_push(stores: Seq<Vec<Variable>>, store: Vec<Variable>)
    ensures
        store_views(stores.push(store)) == store_views(stores).push(views(store@)),
        store_views(stores.push(store)).drop_last() == store_views(stores),
{
    assert(store_views(stores.push(store)) =~= store_views(stores).push(views(store@)));
    assert(store_views(stores).push(views(store@)).drop_last() =~= store_views(stores));
}

/// What the stores stand for after the one on top was taken off.
proof fn lemma_store_views_pop(stores: Seq<Vec<Variable>>)
    requires
        stores.len() > 0,
    ensures
        store_views(stores.drop_last()) == store_views(stores).drop_last(),
        store_views(stores).last() == views(stores.last()@),
{
    assert(store_views(stores.drop_last()) =~= store_views(stores).drop_last());
}

/// A script put on top counts if it runs in a store of its own.
pub proof fn lemma_fresh_push(frames: Seq<Script>, script: Script)
    ensures
        fresh_count(frames.push(script)) == fresh_count(frames) + if script.fresh {
            1nat
        } else {
            0nat
        },
{
    assert(frames.push(script).drop_last() =~= frames);
}

/// The machine keeps one store for the top level and one for each script that runs in a
/// store of its own.
pub proof fn lemma_step_keeps_well_formed(state: State, event: Occurrence)
    requires
        well_formed(state),
    ensures
        well_formed(stepped(state, event).0),
{
    reveal(stepped);
    match state.waiting {
        Some(Pending::Line { .. }) => {},
        Some(Pending::File { name, definitions_only, .. }) => {
            match event {
                Occurrence::Text(text) => {
                    lemma_fresh_push(
                        state.frames,
                        Script {
                            lines: lines_of(text),
                            next: 0,
                            input_name: name,
                            line_number: 0,
                            counted: true,
                            definitions_only,
                            fresh: false,
                        },
                    );
                },
                _ => {},
            }
        },
        None => {
            match event {
                Occurrence::Fact(answer) => {
                    lemma_advance_keeps_well_formed(
                        State { known: state.known.push(answer), ..state },
                    );
                },
                _ => {
                    lemma_advance_keeps_well_formed(state);
                },
            }
        },
    }
}

proof fn lemma_advance_keeps_well_formed(state: State)
    requires
        well_formed(state),
    ensures
        well_formed(advanced(state).0),
{
    if state.frames.len() > 0 {
        let frame = state.frames.last();
        if frame.next < frame.lines.len() {
            let line = frame.lines[frame.next as int];
            let number = if frame.counted {
                line_count(frame.next)
            } else {
                frame.line_number
            };
            let (store, effect) = if frame.definitions_only {
                defined(state.known, state.stores.last(), line, frame.input_name, number)
            } else {
                interpreted(state.known, state.stores.last(), line, frame.input_name, number)
            };
            let top = with_top(state, store);
            match effect {
                Effect::Needs(_) => {},
                _ => {
                    lemma_settle_keeps_well_formed(top, frame, number, effect);
                },
            }
        }
    }
}

proof fn lemma_settle_keeps_well_formed(state: State, frame: Script, number: int, effect: Effect)
    requires
        well_formed(state),
        state.frames.len() > 0,
        frame == state.frames.last(),
        i32::MIN <= number <= i32::MAX,
    ensures
        well_formed(settled(state, frame, number, effect).0),
{
    let rest = state.frames.drop_last();
    let moved_script = Script { next: frame.next + 1, ..frame };
    lemma_fresh_push(rest, moved_script);
    let moved = State { frames: rest.push(moved_script), known: Seq::empty(), ..state };
    assert(well_formed(moved));
    match effect {
        Effect::Run(lines) => {
            lemma_fresh_push(
                moved.frames,
                Script {
                    lines,
                    next: 0,
                    input_name: frame.input_name,
                    line_number: number,
                    counted: false,
                    definitions_only: false,
                    fresh: false,
                },
            );
        },
        Effect::Call { name, lines } => {
            lemma_fresh_push(
                moved.frames,
                Script {
                    lines,
                    next: 0,
                    input_name: block_name(name),
                    line_number: 0,
                    counted: true,
                    definitions_only: false,
                    fresh: true,
                },
            );
        },
        _ => {},
    }
}

/// Stores that are as they should be stay so at every step: no name is bound twice in a
/// store, and the kind and the text of every binding agree.
pub proof fn lemma_step_keeps_stores_valid(state: State, event: Occurrence)
    requires
        well_formed(state),
        valid_stores(state),
    ensures
        valid_stores(stepped(state, event).0),
{
    reveal(stepped);
    match state.waiting {
        Some(Pending::Line { identifier, .. }) => {
            match event {
                Occurrence::Line(text) => {
                    lemma_assign_keeps_valid(
                        state.stores.last(),
                        Binding {
                            datatype: DataType::Str,
                            identifier,
                            value: without_line_end(text),
                        },
                    );
                },
                _ => {},
            }
        },
        Some(Pending::File { .. }) => {},
        None => {
            let known = match event {
                Occurrence::Fact(answer) => state.known.push(answer),
                _ => state.known,
            };
            lemma_advance_keeps_stores_valid(State { known, ..state });
        },
    }
}

proof fn lemma_advance_keeps_stores_valid(state: State)
    requires
        well_formed(state),
        valid_stores(state),
    ensures
        valid_stores(advanced(state).0),
{
    if state.frames.len() > 0 {
        let frame = state.frames.last();
        if frame.next < frame.lines.len() {
            let line = frame.lines[frame.next as int];
            let number = if frame.counted {
                line_count(frame.next)
            } else {
                frame.line_number
            };
            lemma_lines_keep_valid(
                state.known,
                state.stores.last(),
                line,
                frame.input_name,
                number,
            );
        }
    }
}

/// To run a line again after it asked for a fact about doubles is to run it for the
/// first time: whatever is known by then, the machine goes on from the state in which the
/// line asked as it would from the state before.
pub proof fn lemma_asking_is_harmless(state: State, known: Seq<Answer>)
    requires
        well_formed(state),
        advanced(state).1 is Needs,
    ensures
        advanced(State { known, ..advanced(state).0 }) == advanced(State { known, ..state }),
{
    let frame = state.frames.last();
    let line = frame.lines[frame.next as int];
    let number = if frame.counted {
        line_count(frame.next)
    } else {
        frame.line_number
    };
    let top = state.stores.last();
    crate::interpreter::lemma_asking_binds_nothing(
        state.known,
        top,
        line,
        frame.input_name,
        number,
    );
    crate::interpreter::lemma_bookkeeping_idempotent(top, line, frame.input_name, number);
    let asked = advanced(state).0;
    assert(asked.stores.drop_last() =~= state.stores.drop_last());
    if frame.definitions_only {
        assert(asked.stores =~= state.stores);
    }
}

/// No question is asked twice: where a step asked for a fact about doubles and the next
/// event is a fact that answers, the next step does not ask for it again, and it goes on
/// as the step before would have, had the fact been known.
pub proof fn lemma_no_question_twice(state: State, event: Occurrence, answer: Answer)
    requires
        well_formed(state),
        stepped(state, event).1 is Needs,
        crate::arithmetic::answers(answer, stepped(state, event).1->Needs_0),
    ensures
        stepped(stepped(state, event).0, Occurrence::Fact(answer)).1 != stepped(state, event).1,
        stepped(stepped(state, event).0, Occurrence::Fact(answer)) == advanced(
            State { known: stepped(state, event).0.known.push(answer), ..state },
        ),
{
    reveal(stepped);
    let known = match event {
        Occurrence::Fact(first) => state.known.push(first),
        _ => state.known,
    };
    let before = State { known, ..state };
    let asked = advanced(before).0;
    assert(stepped(state, event) == advanced(before));
    let more = known.push(answer);
    lemma_asking_is_harmless(before, more);
    let again = State { known: more, ..before };
    let frame = again.frames.last();
    let line = frame.lines[frame.next as int];
    let number = if frame.counted {
        line_count(frame.next)
    } else {
        frame.line_number
    };
    crate::interpreter::lemma_lines_ask_for_news(
        more,
        again.stores.last(),
        line,
        frame.input_name,
        number,
    );
    crate::arithmetic::lemma_fact_answers(known, answer, stepped(state, event).1->Needs_0, 0);
    assert(State { known: more, ..asked } == State { known: asked.known.push(answer), ..asked });
}

/// A step leaves every store below the one on top as it is, and in its place.
pub proof fn lemma_step_keeps_lower_stores(state: State, event: Occurrence, i: int)
    requires
        well_formed(state),
        0 <= i < state.stores.len() - 1,
    ensures
        stepped(state, event).0.stores.len() > i,
        stepped(state, event).0.stores[i] == state.stores[i],
{
    reveal(stepped);
    match state.waiting {
        Some(_) => {},
        None => {
            let known = match event {
                Occurrence::Fact(answer) => state.known.push(answer),
                _ => state.known,
            };
            lemma_advance_keeps_lower_stores(State { known, ..state }, i);
        },
    }
}

proof fn lemma_advance_keeps_lower_stores(state: State, i: int)
    requires
        well_formed(state),
        0 <= i < state.stores.len() - 1,
    ensures
        advanced(state).0.stores.len() > i,
        advanced(state).0.stores[i] == state.stores[i],
{
}

/// A step that adds a store adds one empty store, for a script that runs in a store of
/// its own: a block that is called finds nothing bound.
pub proof fn lemma_call_starts_empty(state: State, event: Occurrence)
    requires
        well_formed(state),
        stepped(state, event).0.stores.len() > state.stores.len(),
    ensures
        stepped(state, event).0.stores.len() == state.stores.len() + 1,
        stepped(state, event).0.stores.last() == Seq::<Binding>::empty(),
        stepped(state, event).0.frames.len() > 0,
        stepped(state, event).0.frames.last().fresh,
        stepped(state, event).0.frames.last().next == 0,
{
    reveal(stepped);
}

/// The state after the events, taken one after another.
pub open spec fn ran(state: State, events: Seq<Occurrence>) -> State
    decreases events.len(),
{
    if events.len() == 0 {
        state
    } else {
        stepped(ran(state, events.drop_last()), events.last()).0
    }
}

/// The machine stays well formed however long it runs.
pub proof fn lemma_ran_keeps_well_formed(state: State, events: Seq<Occurrence>)
    requires
        well_formed(state),
    ensures
        well_formed(ran(state, events)),
    decreases events.len(),
{
    if events.len() > 0 {
        lemma_ran_keeps_well_formed(state, events.drop_last());
        lemma_step_keeps_well_formed(ran(state, events.drop_last()), events.last());
    }
}

/// Blocks run apart from their callers. For as long as there is a store above a given
/// one (from the call of a block to the step at which the block ends) the given store
/// stays as it was: what the block binds is bound in its own store, which is gone when
/// the block has ended.
pub proof fn lemma_caller_store_untouched(state: State, events: Seq<Occurrence>, k: int)
    requires
        well_formed(state),
        0 <= k < state.stores.len(),
        forall|j: int|
            0 <= j < events.len() ==> (#[trigger] ran(state, events.take(j))).stores.len() > k + 1,
    ensures
        ran(state, events).stores.len() > k,
        ran(state, events).stores[k] == state.stores[k],
    decreases events.len(),
{
    if events.len() == 0 {
    } else {
        let earlier = events.drop_last();
        assert(earlier =~= events.take(events.len() - 1));
        assert forall|j: int| 0 <= j < earlier.len() implies (#[trigger] ran(
            state,
            earlier.take(j),
        )).stores.len() > k + 1 by {
            assert(earlier.take(j) =~= events.take(j));
        }
        lemma_caller_store_untouched(state, earlier, k);
        lemma_ran_keeps_well_formed(state, earlier);
        lemma_step_keeps_lower_stores(ran(state, earlier), events.last(), k);
    }
}

/// Lines that are to be run are never handed out: the machine runs them itself.
pub proof fn lemma_step_runs_lines_itself(state: State, event: Occurrence)
    ensures
        !(stepped(state, event).1 is Run),
        !(stepped(state, event).1 is Call),
{
    reveal(stepped);
}

fn block_input_name(name: &String) -> (out: String)
    ensures
        out@ == block_name(name@),
{
    let mut text = chars_of("<block ");
    append_text(&mut text, &chars_of(name.as_str()));
    append_text(&mut text, &chars_of(">"));
    text_of(&text)
}

impl Machine {
    /// A machine with nothing to run, whose one store, that of the top level, is empty.
    pub fn new() -> (machine: Machine)
        ensures
            well_formed(machine@),
            machine@ == (State {
                stores: seq![Seq::empty()],
                frames: Seq::empty(),
                waiting: None,
                known: Seq::empty(),
            }),
    {
        let mut stores: Vec<Vec<Variable>> = Vec::new();
        let store: Vec<Variable> = Vec::new();
        proof {
            lemma_store_views_push(stores@, store);
            assert(views(store@) =~= Seq::<Binding>::empty());
            assert(store_views(stores@) =~= Seq::<Seq<Binding>>::empty());
        }
        stores.push(store);
        let machine = Machine { stores, frames: Vec::new(), waiting: None, known: Vec::new() };
        assert(machine@.stores =~= seq![Seq::<Binding>::empty()]);
        assert(machine@.frames =~= Seq::<Script>::empty());
        assert(machine@.known =~= Seq::<Answer>::empty());
        machine
    }

    /// The store on top: the one in which the next line runs.
    pub fn variables(&self) -> (store: &Vec<Variable>)
        requires
            well_formed(self@),
        ensures
            views(store@) == self@.stores.last(),
    {
        &self.stores[self.stores.len() - 1]
    }

    /// The store of the top level.
    pub fn globals(&self) -> (store: &Vec<Variable>)
        requires
            well_formed(self@),
        ensures
            views(store@) == self@.stores[0],
    {
        &self.stores[0]
    }

    fn pop_store(&mut self) -> (store: Vec<Variable>)
        requires
            old(self)@.stores.len() > 0,
        ensures
            final(self)@ == (State { stores: old(self)@.stores.drop_last(), ..old(self)@ }),
            views(store@) == old(self)@.stores.last(),
    {
        proof {
            lemma_store_views_pop(self.stores@);
        }
        self.stores.pop().unwrap()
    }

    fn push_store(&mut self, store: Vec<Variable>)
        ensures
            final(self)@ == (State {
                stores: old(self)@.stores.push(views(store@)),
                ..old(self)@
            }),
    {
        proof {
            lemma_store_views_push(self.stores@, store);
        }
        self.stores.push(store);
    }

    fn pop_frame(&mut self) -> (frame: Frame)
        requires
            old(self)@.frames.len() > 0,
        ensures
            final(self)@ == (State { frames: old(self)@.frames.drop_last(), ..old(self)@ }),
            frame@ == old(self)@.frames.last(),
    {
        let ghost before = self@;
        let frame = self.frames.pop().unwrap();
        assert(self@.frames =~= before.frames.drop_last());
        frame
    }

    fn push_frame(&mut self, frame: Frame)
        ensures
            final(self)@ == (State { frames: old(self)@.frames.push(frame@), ..old(self)@ }),
    {
        let ghost before = self@;
        let ghost script = frame@;
        self.frames.push(frame);
        assert(self@.frames =~= before.frames.push(script));
    }

    fn forget(&mut self)
        ensures
            final(self)@ == (State { known: Seq::empty(), ..old(self)@ }),
    {
        self.known = Vec::new();
        assert(self@.known =~= Seq::<Answer>::empty());
    }

    fn learn(&mut self, fact: Fact)
        ensures
            final(self)@ == (State { known: old(self)@.known.push(fact@), ..old(self)@ }),
    {
        let ghost before = self@;
        let ghost answer = fact@;
        self.known.push(fact);
        assert(self@.known =~= before.known.push(answer));
    }

    fn wait_for(&mut self, waiting: Waiting)
        ensures
            final(self)@ == (State { waiting: Some(waiting@), ..old(self)@ }),
    {
        self.waiting = Some(waiting);
    }

    fn stop_waiting(&mut self) -> (waiting: Option<Waiting>)
        ensures
            final(self)@ == (State { waiting: None, ..old(self)@ }),
            match waiting {
                Some(w) => old(self)@.waiting == Some(w@),
                None => old(self)@.waiting is None,
            },
    {
        self.waiting.take()
    }

    fn run_line(&mut self, frame: &Frame) -> (r: (Action, i32))
        requires
            old(self)@.stores.len() > 0,
            frame.next < frame.lines.len(),
        ensures
            ({
                let script = frame@;
                let state = old(self)@;
                let line = script.lines[script.next as int];
                let number = if script.counted {
                    line_count(script.next)
                } else {
                    script.line_number
                };
                let (store, effect) = if script.definitions_only {
                    defined(state.known, state.stores.last(), line, script.input_name, number)
                } else {
                    interpreted(state.known, state.stores.last(), line, script.input_name, number)
                };
                &&& r.1 as int == number
                &&& r.0@ == effect
                &&& final(self)@ == with_top(state, store)
            }),
    {
        let line = chars_of(frame.lines[frame.next].as_str());
        let number: i32 = if frame.counted {
            if frame.next < 2147483647 {
                (frame.next + 1) as i32
            } else {
                2147483647
            }
        } else {
            frame.line_number
        };
        let input_name = chars_of(frame.input_name.as_str());
        let mut store = self.pop_store();
        let action = if frame.definitions_only {
            define_line(&line, &input_name, number, &mut store, self.known.as_slice())
        } else {
            interpret_line(&line, &input_name, number, &mut store, self.known.as_slice())
        };
        self.push_store(store);
        (action, number)
    }

    /// Puts lines on top of what is to be run. They run in the store that is on top,
    /// under the input name; they are numbered from 1 if they are counted, else each runs
    /// under the line number given.
    pub fn submit(&mut self, lines: Vec<String>, input_name: String, line_number: i32, counted: bool)
        requires
            well_formed(old(self)@),
        ensures
            well_formed(final(self)@),
            final(self)@ == (State {
                frames: old(self)@.frames.push(
                    Script {
                        lines: views(lines@),
                        next: 0,
                        input_name: input_name@,
                        line_number: line_number as int,
                        counted,
                        definitions_only: false,
                        fresh: false,
                    },
                ),
                ..old(self)@
            }),
    {
        let frame = Frame {
            lines,
            next: 0,
            input_name,
            line_number,
            counted,
            definitions_only: false,
            fresh: false,
        };
        proof {
            lemma_fresh_push(self@.frames, frame@);
        }
        self.push_frame(frame);
    }

    /// Puts the lines of a source text on top of what is to be run, counted.
    pub fn submit_text(&mut self, text: &str, input_name: String)
        requires
            well_formed(old(self)@),
        ensures
            well_formed(final(self)@),
            final(self)@ == (State {
                frames: old(self)@.frames.push(
                    Script {
                        lines: lines_of(text@),
                        next: 0,
                        input_name: input_name@,
                        line_number: 0,
                        counted: true,
                        definitions_only: false,
                        fresh: false,
                    },
                ),
                ..old(self)@
            }),
    {
        let body = crate::action::texts_of(&lines(&chars_of(text)));
        self.submit(body, input_name, 0, true);
    }

    fn settle(&mut self, frame: Frame, number: i32, action: Action, Ghost(whole): Ghost<State>) -> (out:
        Action)
        requires
            frame.next < usize::MAX,
            old(self)@ == (State { frames: whole.frames.drop_last(), ..whole }),
        ensures
            (final(self)@, out@) == settled(whole, frame@, number as int, action@),
    {
        let mut frame = frame;
        frame.next = frame.next + 1;
        let input_name = frame.input_name.clone();
        self.push_frame(frame);
        self.forget();
        match action {
            Action::Prompt { prompt, identifier } => {
                self.wait_for(
                    Waiting::Line { identifier: identifier.clone(), input_name, line_number: number },
                );
                Action::Prompt { prompt, identifier }
            },
            Action::Load { name, definitions_only } => {
                self.wait_for(
                    Waiting::File {
                        name: name.clone(),
                        definitions_only,
                        input_name,
                        line_number: number,
                    },
                );
                Action::Load { name, definitions_only }
            },
            Action::Run(lines) => {
                self.push_frame(
                    Frame {
                        lines,
                        next: 0,
                        input_name,
                        line_number: number,
                        counted: false,
                        definitions_only: false,
                        fresh: false,
                    },
                );
                Action::Nothing
            },
            Action::Call { name, lines } => {
                self.push_frame(
                    Frame {
                        lines,
                        next: 0,
                        input_name: block_input_name(&name),
                        line_number: 0,
                        counted: true,
                        definitions_only: false,
                        fresh: true,
                    },
                );
                let store: Vec<Variable> = Vec::new();
                assert(views(store@) =~= Seq::<Binding>::empty());
                self.push_store(store);
                Action::Nothing
            },
            other => other,
        }
    }

    fn advance(&mut self) -> (action: Action)
        requires
            well_formed(old(self)@),
        ensures
            (final(self)@, action@) == advanced(old(self)@),
    {
        let ghost before = self@;
        if self.frames.len() == 0 {
            self.forget();
            return Action::Finished;
        }
        let frame = self.pop_frame();
        if frame.next >= frame.lines.len() {
            if frame.fresh {
                proof {
                    lemma_fresh_push(before.frames.drop_last(), frame@);
                    assert(before.frames.drop_last().push(frame@) =~= before.frames);
                }
                let _ = self.pop_store();
            }
            return Action::Nothing;
        }
        let (action, number) = self.run_line(&frame);
        match action {
            Action::Needs(request) => {
                let ghost script = frame@;
                self.push_frame(frame);
                assert(before.frames.drop_last().push(script) =~= before.frames);
                Action::Needs(request)
            },
            other => {
                let ghost whole = State { frames: before.frames, ..self@ };
                self.settle(frame, number, other, Ghost(whole))
            },
        }
    }

    /// Takes what came of the last action, does the next thing, and says what is to be
    /// done outside.
    pub fn step(&mut self, event: Event) -> (action: Action)
        requires
            well_formed(old(self)@),
        ensures
            well_formed(final(self)@),
            (final(self)@, action@) == stepped(old(self)@, event@),
            !(action@ is Run),
            !(action@ is Call),
    {
        let ghost before = self@;
        proof {
            reveal(stepped);
            lemma_step_keeps_well_formed(before, event@);
            lemma_step_runs_lines_itself(before, event@);
        }
        match self.stop_waiting() {
            Some(Waiting::Line { identifier, input_name, line_number }) => {
                match event {
                    Event::Line(text) => {
                        let mut store = self.pop_store();
                        let value = strip_line_end(&chars_of(text.as_str()));
                        assign(
                            variable_of(DataType::Str, &chars_of(identifier.as_str()), &value),
                            &mut store,
                        );
                        self.push_store(store);
                        Action::Nothing
                    },
                    _ => complain(
                        &chars_of(input_name.as_str()),
                        line_number,
                        "readln",
                        "invalid input",
                    ),
                }
            },
            Some(Waiting::File { name, definitions_only, input_name, line_number }) => {
                let origin = if definitions_only {
                    "import"
                } else {
                    "interpret"
                };
                match event {
                    Event::Text(text) => {
                        let body = crate::action::texts_of(&lines(&chars_of(text.as_str())));
                        self.push_frame(
                            Frame {
                                lines: body,
                                next: 0,
                                input_name: name,
                                line_number: 0,
                                counted: true,
                                definitions_only,
                                fresh: false,
                            },
                        );
                        Action::Nothing
                    },
                    Event::Failure(message) => report(
                        &chars_of(input_name.as_str()),
                        line_number,
                        origin,
                        &chars_of(message.as_str()),
                    ),
                    _ => report(&chars_of(input_name.as_str()), line_number, origin, &Vec::new()),
                }
            },
            None => {
                match event {
                    Event::Fact(fact) => {
                        self.learn(fact);
                    },
                    _ => {},
                }
                self.advance()
            },
        }
    }
}

} // verus!
