use silm::action::Action;
use silm::arithmetic::{Fact, Operator, Request};
use silm::machine::{Event, Machine};
use silm::store::get_variable;
use silm::value::{DataType, Variable};

fn number(text: &str) -> f64 {
    text.parse::<f64>().unwrap()
}

fn answer(request: &Request) -> Fact {
    match request {
        Request::Read(text) => Fact::Read {
            text: text.clone(),
            number: match text.parse::<f64>() {
                Ok(value) => Some(value.to_string()),
                Err(_) => None,
            },
        },
        Request::Apply(operator, left, right) => {
            let a = number(left);
            let b = number(right);
            let value = match operator {
                Operator::Add => a + b,
                Operator::Subtract => a - b,
                Operator::Multiply => a * b,
                Operator::Divide => a / b,
                Operator::Remainder => a % b,
            };
            Fact::Apply {
                operator: *operator,
                left: left.clone(),
                right: right.clone(),
                result: value.to_string(),
            }
        }
    }
}

/// Runs the machine until it has finished or asks for the end; standard input and the
/// files are given, and what would be written to standard output comes back.
fn run(machine: &mut Machine, input: &[&str], files: &[(&str, &str)]) -> Vec<String> {
    let mut output: Vec<String> = Vec::new();
    let mut read = 0;
    let mut event = Event::Resume;
    loop {
        match machine.step(event) {
            Action::Finished => return output,
            Action::Exit => {
                output.push("<exit>".to_string());
                return output;
            }
            Action::Nothing => event = Event::Resume,
            Action::Print(text) => {
                output.push(text);
                event = Event::Resume;
            }
            Action::Prompt { prompt, .. } => {
                output.push(prompt);
                if read < input.len() {
                    event = Event::Line(input[read].to_string());
                    read += 1;
                } else {
                    event = Event::Failure("end of input".to_string());
                }
            }
            Action::Load { name, .. } => {
                event = Event::Failure("No such file or directory (os error 2)".to_string());
                for (file, text) in files {
                    if *file == name {
                        event = Event::Text(text.to_string());
                    }
                }
            }
            Action::Needs(request) => event = Event::Fact(answer(&request)),
            Action::Run(_) | Action::Call { .. } => unreachable!(),
        }
    }
}

fn script(text: &str) -> Machine {
    let mut machine = Machine::new();
    machine.submit_text(text, "main.silm".to_string());
    machine
}

fn variable(identifier: &str, datatype: DataType, value: &str) -> Variable {
    Variable { identifier: identifier.to_string(), datatype, value: value.to_string() }
}

#[test]
fn a_new_machine_has_finished() {
    let mut machine = Machine::new();
    assert_eq!(machine.step(Event::Resume), Action::Finished);
    assert!(machine.globals().is_empty());
}

#[test]
fn lines_run_in_order_with_their_numbers() {
    let mut machine = script("let x = 2\n\nprintln ($line_number$)\r\nprintln (x)\nprintln ($input_name$)");
    assert_eq!(run(&mut machine, &[], &[]), vec!["3", "2", "main.silm"]);
}

#[test]
fn arithmetic_is_asked_for_and_used() {
    let mut machine = script("let x = 10\nlet y = 10 + x\nprintln (y)\nprintln (typeof (y))\nprintln (1 / 4 + x)");
    assert_eq!(run(&mut machine, &[], &[]), vec!["20", "float", "10.25"]);
    assert_eq!(
        get_variable("y", machine.globals()),
        Some(variable("y", DataType::Float, "20"))
    );
}

#[test]
fn a_block_runs_in_its_own_store() {
    let mut machine = script(
        "let outer = 1\n\
         block b () let inner = 2\\;println (inner)\\;println (outer)\\;println ($input_name$)\\;println ($line_number$)\n\
         b ()\n\
         println (inner)\n\
         println (outer)",
    );
    assert_eq!(
        run(&mut machine, &[], &[]),
        vec![
            "2",
            "<block b>:3: println: variable 'outer' unrecognised",
            "<block b>",
            "5",
            "main.silm:4: println: variable 'inner' unrecognised",
            "1",
        ]
    );
    assert_eq!(get_variable("inner", machine.globals()), None);
    assert_eq!(
        get_variable("outer", machine.globals()),
        Some(variable("outer", DataType::Int, "1"))
    );
}

#[test]
fn a_block_starts_anew_at_each_call() {
    let mut machine = script(
        "block b () println (typeof (seen))\\;let seen = 1\n\
         b ()\n\
         b ()",
    );
    assert_eq!(
        run(&mut machine, &[], &[]),
        vec![
            "<block b>:1: println: typeof: variable 'seen' unrecognised",
            "<block b>:1: println: typeof: variable 'seen' unrecognised",
        ]
    );
}

#[test]
fn if_and_eval_run_in_the_current_store() {
    let mut machine = script(
        "let x = 1\n\
         if (eq (x, 1)) :: let x = 2\\;println (x)\\;println ($line_number$)\n\
         if (eq (x, 1)) :: println (\"never\")\n\
         eval (\"let z = 'q'\")\n\
         println (z)\n\
         println (x)",
    );
    assert_eq!(run(&mut machine, &[], &[]), vec!["2", "2", "q", "2"]);
}

#[test]
fn readln_binds_the_line_without_its_end() {
    let mut machine = script(
        "let name = \"\"\n\
         readln (\"Name: \", name)\n\
         formatln (\"Hello, {name}!\")\n\
         readln (\"Again: \", name)\n\
         println (name)\n\
         readln (\"Last: \", name)",
    );
    assert_eq!(
        run(&mut machine, &["hasan  \r\n", "ali"], &[]),
        vec![
            "Name: ",
            "Hello, hasan  !",
            "Again: ",
            "ali",
            "Last: ",
            "main.silm:6: readln: invalid input",
        ]
    );
    assert_eq!(
        get_variable("name", machine.globals()),
        Some(variable("name", DataType::Str, "ali"))
    );
}

#[test]
fn interpret_runs_a_file_in_the_current_store() {
    let mut machine = script(
        "let x = 1\n\
         interpret (\"lib.silm\")\n\
         println (y)\n\
         interpret (\"none.silm\")",
    );
    let files = [("lib.silm", "println (x)\nlet y = 5\nprintln ($input_name$)\nprintln ($line_number$)\n")];
    assert_eq!(
        run(&mut machine, &[], &files),
        vec![
            "1",
            "lib.silm",
            "4",
            "5",
            "main.silm:4: interpret: No such file or directory (os error 2)",
        ]
    );
}

#[test]
fn import_runs_only_definitions() {
    let mut machine = script(
        "import (\"lib.silm\")\n\
         println (y)\n\
         b ()\n\
         println (typeof ($line$))\n\
         import (\"none.silm\")",
    );
    let files =
        [("lib.silm", "println (\"not printed\")\nlet y = 5\nexit ()\nblock b () println (1)\nlet z =\n# let w = 1")];
    assert_eq!(
        run(&mut machine, &[], &files),
        vec![
            "lib.silm:5: let: improper amount of tokens (!>= 4)",
            "5",
            "1",
            "str",
            "main.silm:5: import: No such file or directory (os error 2)",
        ]
    );
    assert_eq!(get_variable("w", machine.globals()), None);
}

#[test]
fn exit_is_handed_out() {
    let mut machine = script("println (1)\nexit ()\nprintln (2)");
    assert_eq!(run(&mut machine, &[], &[]), vec!["1", "<exit>"]);
}

#[test]
fn lines_given_one_at_a_time_share_the_store() {
    let mut machine = Machine::new();
    machine.submit(vec!["let x = 1".to_string()], "stdin".to_string(), 0, false);
    assert_eq!(run(&mut machine, &[], &[]), Vec::<String>::new());
    machine.submit(vec!["println ($line_number$)".to_string()], "stdin".to_string(), 0, false);
    assert_eq!(run(&mut machine, &[], &[]), vec!["0"]);
    machine.submit(vec!["println (x)".to_string()], "stdin".to_string(), 0, false);
    assert_eq!(run(&mut machine, &[], &[]), vec!["1"]);
    assert_eq!(machine.variables().len(), 5);
}

#[test]
fn nested_blocks_nest_their_stores() {
    let mut machine = script(
        "block inner () let a = 1\\;println (\"inner\")\n\
         block outer () println (typeof (inner))\\;let b = 2\\;println (b)\n\
         outer ()\n\
         inner ()\n\
         println (typeof (inner))",
    );
    assert_eq!(
        run(&mut machine, &[], &[]),
        vec![
            "<block outer>:1: println: typeof: variable 'inner' unrecognised",
            "2",
            "inner",
            "block",
        ]
    );
    assert_eq!(get_variable("a", machine.globals()), None);
    assert_eq!(get_variable("b", machine.globals()), None);
}

#[test]
fn a_step_does_one_thing() {
    let mut machine = script("block b () println (1)\nb ()");
    assert_eq!(machine.step(Event::Resume), Action::Nothing);
    assert_eq!(machine.variables().len(), 5);
    assert_eq!(machine.step(Event::Resume), Action::Nothing);
    assert_eq!(machine.variables().len(), 0);
    assert_eq!(machine.globals().len(), 5);
    assert_eq!(machine.step(Event::Resume), Action::Print("1".to_string()));
    assert_eq!(machine.variables().len(), 4);
    assert_eq!(machine.step(Event::Resume), Action::Nothing);
    assert_eq!(machine.variables().len(), 5);
    assert_eq!(machine.step(Event::Resume), Action::Nothing);
    assert_eq!(machine.step(Event::Resume), Action::Finished);
}
