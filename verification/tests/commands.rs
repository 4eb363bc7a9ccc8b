use silm::action::{throw_error, Action};
use silm::arithmetic::{Fact, Operator, Request};
use silm::commands::{
    silm_block, silm_eval, silm_exit, silm_formatln, silm_if, silm_import, silm_interpret,
    silm_let, silm_println, silm_readln,
};
use silm::interpreter::{interpret, VERSION};
use silm::store::get_variable;
use silm::value::{DataType, Variable};

fn variable(identifier: &str, datatype: DataType, value: &str) -> Variable {
    Variable { identifier: identifier.to_string(), datatype, value: value.to_string() }
}

fn print(text: &str) -> Action {
    Action::Print(text.to_string())
}

fn name() -> String {
    "test.silm".to_string()
}

#[test]
fn throw_error_writes_the_report() {
    assert_eq!(
        throw_error("empty value given", "let", "main.silm".to_string(), 12),
        "main.silm:12: let: empty value given"
    );
    assert_eq!(throw_error("m", "f", "<stdin>".to_string(), -3), "<stdin>:-3: f: m");
}

#[test]
fn let_binds_and_overwrites() {
    let mut variables: Vec<Variable> = Vec::new();
    assert_eq!(silm_let(vec!["x", "=", "10"], name(), 1, &mut variables, &[]), Action::Nothing);
    assert_eq!(variables, vec![variable("x", DataType::Int, "10")]);
    assert_eq!(
        silm_let(vec!["y", "=", "\"a", "b\""], name(), 2, &mut variables, &[]),
        Action::Nothing
    );
    assert_eq!(
        silm_let(vec!["x", "=", "'c'"], name(), 3, &mut variables, &[]),
        Action::Nothing
    );
    assert_eq!(
        variables,
        vec![variable("x", DataType::Char, "c"), variable("y", DataType::Str, "a b")]
    );
    assert_eq!(silm_let(vec!["z", "=", "x"], name(), 4, &mut variables, &[]), Action::Nothing);
    assert_eq!(get_variable("z", &variables), Some(variable("z", DataType::Char, "c")));
}

#[test]
fn let_reports_and_leaves_the_store() {
    let mut variables = vec![variable("x", DataType::Int, "1")];
    let before = variables.clone();
    assert_eq!(
        silm_let(vec!["x", "="], name(), 7, &mut variables, &[]),
        print("test.silm:7: let: improper amount of tokens (!>= 4)")
    );
    assert_eq!(
        silm_let(vec!["x", "is", "2"], name(), 7, &mut variables, &[]),
        print("test.silm:7: let: assignment operator (=) not found")
    );
    assert_eq!(
        silm_let(vec!["x", "=", "y"], name(), 7, &mut variables, &[]),
        print("test.silm:7: let: variable 'y' unrecognised")
    );
    assert_eq!(
        silm_let(vec!["x", "=", "2.5"], name(), 7, &mut variables, &[]),
        Action::Needs(Request::Read("2.5".to_string()))
    );
    assert_eq!(variables, before);
    let known = vec![Fact::Read { text: "2.5".to_string(), number: Some("2.5".to_string()) }];
    assert_eq!(silm_let(vec!["x", "=", "2.5"], name(), 7, &mut variables, &known), Action::Nothing);
    assert_eq!(variables, vec![variable("x", DataType::Float, "2.5")]);
}

#[test]
fn println_prints_the_text() {
    let variables = vec![variable("x", DataType::Int, "1")];
    assert_eq!(silm_println(vec!["(x)"], name(), 1, &variables, &[]), print("1"));
    assert_eq!(silm_println(vec!["(\"a", "b\")"], name(), 1, &variables, &[]), print("a b"));
    assert_eq!(silm_println(vec!["()"], name(), 1, &variables, &[]), print(""));
    assert_eq!(
        silm_println(vec![], name(), 1, &variables, &[]),
        print("test.silm:1: println: no argument provided")
    );
    assert_eq!(
        silm_println(vec!["x"], name(), 1, &variables, &[]),
        print("test.silm:1: println: command call does not contain two parantheses")
    );
    assert_eq!(
        silm_println(vec!["(y)"], name(), 1, &variables, &[]),
        print("test.silm:1: println: variable 'y' unrecognised")
    );
    assert_eq!(
        silm_println(vec!["(1", "+", "x)"], name(), 1, &variables, &[]),
        Action::Needs(Request::Read("1".to_string()))
    );
}

#[test]
fn formatln_fills_the_placeholders() {
    let variables =
        vec![variable("who", DataType::Str, "world"), variable("n", DataType::Int, "3")];
    assert_eq!(
        silm_formatln(vec!["(\"hello", "{who}", "{n}", "{n}", "{x}\")"], name(), 1, &variables, &[]),
        print("hello world 3 3 {x}")
    );
    assert_eq!(
        silm_formatln(vec![], name(), 1, &variables, &[]),
        print("test.silm:1: formatln: command requires one argument")
    );
    assert_eq!(
        silm_formatln(vec!["()"], name(), 1, &variables, &[]),
        print("test.silm:1: formatln: command requires one argument")
    );
    assert_eq!(
        silm_formatln(vec!["who"], name(), 1, &variables, &[]),
        print("test.silm:1: formatln: command call does not contain two parantheses")
    );
}

#[test]
fn readln_asks_for_a_line() {
    let variables =
        vec![variable("answer", DataType::Str, ""), variable("n", DataType::Int, "3")];
    assert_eq!(
        silm_readln(vec!["(\"Name,", "please:", "\",", "answer)"], name(), 1, &variables, &[]),
        Action::Prompt { prompt: "Name, please: ".to_string(), identifier: "answer".to_string() }
    );
    assert_eq!(
        silm_readln(vec!["(\"?\")"], name(), 4, &variables, &[]),
        print("test.silm:4: readln: command requires at least two tokens")
    );
    assert_eq!(
        silm_readln(vec!["(\"?\"", "answer)"], name(), 4, &variables, &[]),
        print("test.silm:4: readln: command requires two arguments")
    );
    assert_eq!(
        silm_readln(vec!["\"?\",", "answer"], name(), 4, &variables, &[]),
        print("test.silm:4: readln: command call does not contain two parantheses")
    );
    assert_eq!(
        silm_readln(vec!["(,", "answer)"], name(), 4, &variables, &[]),
        print("test.silm:4: readln: first argument not given")
    );
    assert_eq!(
        silm_readln(vec!["(\"?\",", ")"], name(), 4, &variables, &[]),
        print("test.silm:4: readln: second argument not given")
    );
    assert_eq!(
        silm_readln(vec!["(\"?\",", "n)"], name(), 4, &variables, &[]),
        print("test.silm:4: readln: invalid type: '\"?\"' must be a str")
    );
    assert_eq!(
        silm_readln(vec!["(\"?\",", "m)"], name(), 4, &variables, &[]),
        print("test.silm:4: readln: variable 'm' unrecognised")
    );
}

#[test]
fn exit_asks_for_the_end() {
    assert_eq!(silm_exit(vec!["()"], name(), 1), Action::Exit);
    assert_eq!(
        silm_exit(vec![], name(), 1),
        print("test.silm:1: exit: command call requires two parantheses")
    );
    assert_eq!(silm_exit(vec!["now"], name(), 1), print("test.silm:1: exit: invalid command call"));
}

#[test]
fn block_stores_its_lines() {
    let mut variables: Vec<Variable> = Vec::new();
    assert_eq!(
        silm_block(
            vec!["greet", "()", "let", "x", "=", "1\\;println", "(x)\\;"],
            name(),
            1,
            &mut variables
        ),
        Action::Nothing
    );
    assert_eq!(
        variables,
        vec![variable("greet", DataType::Block, "let x = 1\nprintln (x)\n")]
    );
    assert_eq!(silm_block(vec!["empty", "()"], name(), 1, &mut variables), Action::Nothing);
    assert_eq!(get_variable("empty", &variables), Some(variable("empty", DataType::Block, "")));
    assert_eq!(
        silm_block(vec![], name(), 2, &mut variables),
        print("test.silm:2: block: block can not be nameless")
    );
    assert_eq!(
        silm_block(vec!["b"], name(), 2, &mut variables),
        print("test.silm:2: block: block must have two parantheses")
    );
    assert_eq!(
        silm_block(vec!["b", "(x)"], name(), 2, &mut variables),
        print("test.silm:2: block: block must have two parantheses")
    );
    assert_eq!(variables.len(), 2);
}

#[test]
fn interpret_and_import_ask_for_a_file() {
    let variables = vec![variable("f", DataType::Str, "lib.silm"), variable("n", DataType::Int, "3")];
    assert_eq!(
        silm_interpret(vec!["(f)"], name(), 1, &variables, &[]),
        Action::Load { name: "lib.silm".to_string(), definitions_only: false }
    );
    assert_eq!(
        silm_import(vec!["(\"a", "b.silm\")"], name(), 1, &variables, &[]),
        Action::Load { name: "a b.silm".to_string(), definitions_only: true }
    );
    assert_eq!(
        silm_interpret(vec!["(n)"], name(), 1, &variables, &[]),
        print("test.silm:1: interpret: argument must be a str")
    );
    assert_eq!(
        silm_import(vec!["(n)"], name(), 1, &variables, &[]),
        print("test.silm:1: import: argument must be a str")
    );
    assert_eq!(silm_interpret(vec!["()"], name(), 1, &variables, &[]), print(""));
    assert_eq!(
        silm_import(vec!["()"], name(), 1, &variables, &[]),
        print("test.silm:1: import: command requires one argument")
    );
    assert_eq!(
        silm_interpret(vec![], name(), 1, &variables, &[]),
        print("test.silm:1: interpret: no argument provided")
    );
    assert_eq!(
        silm_import(vec!["f"], name(), 1, &variables, &[]),
        print("test.silm:1: import: command call does not contain two parantheses")
    );
}

#[test]
fn eval_hands_back_the_text() {
    let variables = vec![variable("code", DataType::Str, "println (1)")];
    assert_eq!(
        silm_eval(vec!["(code)"], name(), 1, &variables, &[]),
        Action::Run(vec!["println (1)".to_string()])
    );
    assert_eq!(
        silm_eval(vec!["(1)"], name(), 1, &variables, &[]),
        print("test.silm:1: eval: argument must be a str")
    );
    assert_eq!(
        silm_eval(vec!["()"], name(), 1, &variables, &[]),
        print("test.silm:1: eval: command requires one argument")
    );
    assert_eq!(
        silm_eval(vec![], name(), 1, &variables, &[]),
        print("test.silm:1: eval: no argument provided")
    );
}

#[test]
fn if_hands_back_the_lines_when_true() {
    let variables = vec![variable("yes", DataType::Bool, "true")];
    assert_eq!(
        silm_if(
            vec!["(yes)", "::", "println", "(1)\\;let", "x", "=", "2"],
            name(),
            1,
            &variables,
            &[]
        ),
        Action::Run(vec!["println (1)".to_string(), "let x = 2".to_string()])
    );
    assert_eq!(
        silm_if(vec!["(false)", "::", "println", "(1)"], name(), 1, &variables, &[]),
        Action::Nothing
    );
    assert_eq!(
        silm_if(vec!["(eq", "(1,", "1))", "::", "exit", "()"], name(), 1, &variables, &[]),
        Action::Run(vec!["exit ()".to_string()])
    );
    assert_eq!(silm_if(vec!["()", "::", "exit", "()"], name(), 1, &variables, &[]), Action::Nothing);
    assert_eq!(
        silm_if(vec![], name(), 1, &variables, &[]),
        print("test.silm:1: if: no condition provided")
    );
    assert_eq!(
        silm_if(vec!["(yes)"], name(), 1, &variables, &[]),
        print("test.silm:1: if: no condition-bound code provided")
    );
    assert_eq!(
        silm_if(vec!["yes", "::", "exit", "()"], name(), 1, &variables, &[]),
        print("test.silm:1: if: command condition must contain two parantheses")
    );
    assert_eq!(
        silm_if(vec!["(1)", "::", "exit", "()"], name(), 1, &variables, &[]),
        print("test.silm:1: if: condition must be of type bool")
    );
}

#[test]
fn interpret_binds_the_bookkeeping() {
    let mut variables: Vec<Variable> = Vec::new();
    let action =
        interpret("  # a comment".to_string(), "main.silm".to_string(), 3, &mut variables, &[]);
    assert_eq!(action, Action::Nothing);
    assert_eq!(
        variables,
        vec![
            variable("$version$", DataType::Str, VERSION),
            variable("$line$", DataType::Str, "  # a comment"),
            variable("$input_name$", DataType::Str, "main.silm"),
            variable("$line_number$", DataType::Int, "3"),
        ]
    );
    let action = interpret("println ($line_number$)".to_string(), "x".to_string(), 4, &mut variables, &[]);
    assert_eq!(action, print("4"));
    assert_eq!(variables.len(), 4);
    let action = interpret("".to_string(), "x".to_string(), 5, &mut variables, &[]);
    assert_eq!(action, Action::Nothing);
}

#[test]
fn interpret_dispatches_by_the_first_token() {
    let mut variables: Vec<Variable> = Vec::new();
    let run = |line: &str, variables: &mut Vec<Variable>| {
        interpret(line.to_string(), "in".to_string(), 1, variables, &[])
    };
    assert_eq!(run("let x = 5", &mut variables), Action::Nothing);
    assert_eq!(run("println (x)", &mut variables), print("5"));
    assert_eq!(run("formatln (\"{x}!\")", &mut variables), print("5!"));
    assert_eq!(run("let s = \"\"", &mut variables), Action::Nothing);
    assert_eq!(
        run("readln (\"> \", s)", &mut variables),
        Action::Prompt { prompt: "> ".to_string(), identifier: "s".to_string() }
    );
    assert_eq!(run("block b () println (1)\\;println (2)", &mut variables), Action::Nothing);
    assert_eq!(
        run("b ()", &mut variables),
        Action::Call {
            name: "b".to_string(),
            lines: vec!["println (1)".to_string(), "println (2)".to_string()]
        }
    );
    assert_eq!(run("b", &mut variables), print("in:1: b: invalid block call"));
    assert_eq!(
        run("b (1)", &mut variables),
        print("in:1: b: block call must contain two parantheses")
    );
    assert_eq!(run("x ()", &mut variables), print("in:1: unrecognised command: x ()"));
    assert_eq!(run("frobnicate  now", &mut variables), print("in:1: unrecognised command: frobnicate now"));
    assert_eq!(
        run("interpret (\"f\")", &mut variables),
        Action::Load { name: "f".to_string(), definitions_only: false }
    );
    assert_eq!(
        run("import (\"f\")", &mut variables),
        Action::Load { name: "f".to_string(), definitions_only: true }
    );
    assert_eq!(run("eval (\"exit ()\")", &mut variables), Action::Run(vec!["exit ()".to_string()]));
    assert_eq!(run("if (true) :: exit ()", &mut variables), Action::Run(vec!["exit ()".to_string()]));
    assert_eq!(run("exit ()", &mut variables), Action::Exit);
    assert_eq!(
        run("let y = 1 + x", &mut variables),
        Action::Needs(Request::Read("1".to_string()))
    );
    assert_eq!(Operator::Add, Operator::Add);
}
