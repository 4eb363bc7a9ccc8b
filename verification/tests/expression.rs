use silm::arithmetic::{Fact, Halt, Operator, Request};
use silm::functions::{call_function, extract_data, silm_eq, silm_format, silm_nameof, silm_ne, silm_typeof};
use silm::shunting::shunting_yard;
use silm::value::{DataType, Variable};

fn number(text: &str) -> f64 {
    text.parse::<f64>().unwrap()
}

fn answer(request: &Request) -> Fact {
    match request {
        Request::Read(text) => Fact::Read {
            text: text.clone(),
            number: match text.parse::<f64>() {
                Ok(value) => Some(value.to_string()),
                Err(_) => None,
            },
        },
        Request::Apply(operator, left, right) => {
            let a = number(left);
            let b = number(right);
            let value = match operator {
                Operator::Add => a + b,
                Operator::Subtract => a - b,
                Operator::Multiply => a * b,
                Operator::Divide => a / b,
                Operator::Remainder => a % b,
            };
            Fact::Apply {
                operator: *operator,
                left: left.clone(),
                right: right.clone(),
                result: value.to_string(),
            }
        }
    }
}

/// Runs an evaluation again and again, each time with the fact that it asked for added
/// to those known, until it gives a value or refuses its input.
fn settle<T>(run: impl Fn(&[Fact]) -> Result<T, Halt>) -> Result<T, String> {
    let mut known: Vec<Fact> = Vec::new();
    loop {
        match run(&known) {
            Ok(value) => return Ok(value),
            Err(Halt::Failed(message)) => return Err(message),
            Err(Halt::Needs(request)) => known.push(answer(&request)),
        }
    }
}

fn evaluate(data: &str, variables: &[Variable]) -> Result<Option<Variable>, String> {
    settle(|known| extract_data(data, variables, known))
}

fn arithmetic(tokens: Vec<&str>, variables: &[Variable]) -> Result<String, String> {
    settle(|known| shunting_yard(tokens.clone(), variables, known))
}

fn variable(identifier: &str, datatype: DataType, value: &str) -> Variable {
    Variable { identifier: identifier.to_string(), datatype, value: value.to_string() }
}

fn literal(datatype: DataType, value: &str) -> Variable {
    variable("$uninitialised$", datatype, value)
}

fn failed(message: &str) -> Halt {
    Halt::Failed(message.to_string())
}

#[test]
fn test_silm_typeof() {
    assert_eq!(silm_typeof(vec!["('A')"], &[], &[]).unwrap().value, "char");
    assert!(silm_typeof(vec!["(a)"], &[], &[]).is_err());
}

#[test]
fn test_silm_nameof() {
    assert_eq!(
        silm_nameof(vec!["(\"Test\")"], &[], &[]).unwrap().value,
        "$uninitialised$"
    );
    assert_eq!(
        silm_nameof(
            vec!["(b)"],
            &[Variable {
                identifier: "b".into(),
                datatype: DataType::Bool,
                value: "false".into()
            }],
            &[]
        )
        .unwrap()
        .value,
        "b"
    );
    assert!(silm_nameof(vec!["(a)"], &[], &[]).is_err());
}

#[test]
fn test_silm_eq() {
    assert_eq!(silm_eq(vec!["(1,", "1)"], &[], &[]).unwrap().value, "true");
    assert_eq!(
        silm_eq(vec!["(\"same", "phrase\",", "\"same", "phrase\")"], &[], &[])
            .unwrap()
            .value,
        "true"
    );
    assert_eq!(
        silm_eq(vec!["(false,", "true)"], &[], &[]).unwrap().value,
        "false"
    );
}

#[test]
fn test_silm_ne() {
    assert_eq!(silm_ne(vec!["(1,", "1)"], &[], &[]).unwrap().value, "false");
    assert_eq!(
        silm_ne(vec!["(\"same", "phrase\",", "\"same", "phrase\")"], &[], &[])
            .unwrap()
            .value,
        "false"
    );
    assert_eq!(
        silm_ne(vec!["(false,", "true)"], &[], &[]).unwrap().value,
        "true"
    );
}

#[test]
fn test_extract_data() {
    let mut variables: Vec<Variable> = Vec::new();

    variables.push(Variable {
        identifier: "x".to_string(),
        datatype: DataType::Int,
        value: "10".to_string(),
    });

    assert_eq!(
        extract_data("10", &variables, &[]),
        Ok(Some(Variable {
            identifier: "$uninitialised$".to_string(),
            datatype: DataType::Int,
            value: "10".to_string()
        }))
    );

    assert_eq!(
        settle(|known| extract_data("1.0", &variables, known)),
        Ok(Some(Variable {
            identifier: "$uninitialised$".to_string(),
            datatype: DataType::Float,
            value: "1".to_string()
        }))
    );

    assert_eq!(
        extract_data("\"alhamdulillah\"", &variables, &[]),
        Ok(Some(Variable {
            identifier: "$uninitialised$".to_string(),
            datatype: DataType::Str,
            value: "alhamdulillah".to_string()
        }))
    );

    assert_eq!(
        extract_data("'W'", &variables, &[]),
        Ok(Some(Variable {
            identifier: "$uninitialised$".to_string(),
            datatype: DataType::Char,
            value: "W".to_string()
        }))
    );

    assert_eq!(
        extract_data("true", &variables, &[]),
        Ok(Some(Variable {
            identifier: "$uninitialised$".to_string(),
            datatype: DataType::Bool,
            value: "true".to_string()
        }))
    );

    assert_eq!(
        settle(|known| extract_data("10 + x", &variables, known)),
        Ok(Some(Variable {
            identifier: "$uninitialised$".to_string(),
            datatype: DataType::Float,
            value: "20".to_string()
        }))
    );
}

#[test]
fn test_shunting_yard() {
    let mut variables: Vec<Variable> = Vec::new();
    variables.push(Variable {
        identifier: "x".to_string(),
        datatype: DataType::Int,
        value: "256".to_string(),
    });

    let tokens: Vec<&str> = "x + 1 + 2 - ( 3 * 4 ) / 5 ^ 6 % 7"
        .split_whitespace()
        .collect();

    let result = settle(|known| shunting_yard(tokens.clone(), &variables, known));
    assert_eq!(result, Ok("258.92".to_string()));
    assert_eq!(number(&result.unwrap()), 258.92);
}

#[test]
fn extract_data_without_facts_asks_for_the_first() {
    assert_eq!(
        extract_data("1.0", &[], &[]),
        Err(Halt::Needs(Request::Read("1.0".to_string())))
    );
    let known = vec![Fact::Read { text: "1.0".to_string(), number: Some("1".to_string()) }];
    assert_eq!(extract_data("1.0", &[], &known), Ok(Some(literal(DataType::Float, "1"))));
    let unknown = vec![Fact::Read { text: "1.0".to_string(), number: None }];
    assert_eq!(extract_data("1.0", &[], &unknown), Err(failed("invalid float assignment")));
}

#[test]
fn shunting_yard_asks_in_order() {
    let x = [variable("x", DataType::Int, "10")];
    let mut known: Vec<Fact> = Vec::new();
    assert_eq!(
        shunting_yard(vec!["10", "+", "x"], &x, &known),
        Err(Halt::Needs(Request::Read("10".to_string())))
    );
    known.push(Fact::Read { text: "10".to_string(), number: Some("10".to_string()) });
    assert_eq!(
        shunting_yard(vec!["10", "+", "x"], &x, &known),
        Err(Halt::Needs(Request::Read("x".to_string())))
    );
    known.push(Fact::Read { text: "x".to_string(), number: None });
    assert_eq!(
        shunting_yard(vec!["10", "+", "x"], &x, &known),
        Err(Halt::Needs(Request::Apply(Operator::Add, "10".to_string(), "10".to_string())))
    );
    known.push(Fact::Apply {
        operator: Operator::Add,
        left: "10".to_string(),
        right: "10".to_string(),
        result: "20".to_string(),
    });
    assert_eq!(shunting_yard(vec!["10", "+", "x"], &x, &known), Ok("20".to_string()));
}

#[test]
fn caret_is_the_product_of_a_a_and_b() {
    assert_eq!(arithmetic(vec!["5", "^", "6"], &[]), Ok("150".to_string()));
    assert_eq!(arithmetic(vec!["2", "^", "10"], &[]), Ok("40".to_string()));
}

#[test]
fn only_sums_make_products_give_way() {
    // 2 * 3 + 4: `*` is applied when `+` arrives.
    assert_eq!(arithmetic(vec!["2", "*", "3", "+", "4"], &[]), Ok("10".to_string()));
    // 2 + 3 * 4: nothing gives way; applied from the right at the end.
    assert_eq!(arithmetic(vec!["2", "+", "3", "*", "4"], &[]), Ok("14".to_string()));
    // 8 - 2 - 1: applied from the right: 8 - (2 - 1).
    assert_eq!(arithmetic(vec!["8", "-", "2", "-", "1"], &[]), Ok("7".to_string()));
    // 8 / 2 * 2: applied from the right: 8 / (2 * 2).
    assert_eq!(arithmetic(vec!["8", "/", "2", "*", "2"], &[]), Ok("2".to_string()));
    assert_eq!(arithmetic(vec!["7", "%", "4"], &[]), Ok("3".to_string()));
    assert_eq!(arithmetic(vec!["1", "/", "3"], &[]), Ok("0.3333333333333333".to_string()));
    assert_eq!(arithmetic(vec!["0.1", "+", "0.2"], &[]), Ok("0.30000000000000004".to_string()));
}

#[test]
fn parentheses_group() {
    assert_eq!(arithmetic(vec!["(", "2", "+", "3", ")", "*", "4"], &[]), Ok("20".to_string()));
    assert_eq!(arithmetic(vec!["(", "5.0", ")"], &[]), Ok("5".to_string()));
}

#[test]
fn shunting_yard_failures() {
    assert_eq!(
        arithmetic(vec!["(", "1", "+", "2"], &[]),
        Err("mismatched parentheses".to_string())
    );
    assert_eq!(arithmetic(vec!["1", "2"], &[]), Err("invalid expression".to_string()));
    assert_eq!(arithmetic(vec!["1", "+"], &[]), Err("invalid expression".to_string()));
    assert_eq!(arithmetic(vec![], &[]), Err("invalid expression".to_string()));
    assert_eq!(arithmetic(vec!["1", "+", "y"], &[]), Err("invalid token: y".to_string()));
    assert_eq!(arithmetic(vec!["1", "+-", "2"], &[]), Err("invalid token: +-".to_string()));
    let s = [variable("s", DataType::Str, "1"), variable("n", DataType::Int, "one")];
    assert_eq!(
        arithmetic(vec!["1", "+", "s"], &s),
        Err("variable 's' must be either an int or a float".to_string())
    );
    assert_eq!(arithmetic(vec!["1", "+", "n"], &s), Err("invalid variable: n".to_string()));
}

#[test]
fn literals_by_shape() {
    assert_eq!(evaluate("", &[]), Ok(None));
    assert_eq!(evaluate("   ", &[]), Ok(None));
    assert_eq!(evaluate("  \"a b\"  ", &[]), Ok(Some(literal(DataType::Str, "a b"))));
    assert_eq!(evaluate("\"\"", &[]), Ok(Some(literal(DataType::Str, ""))));
    assert_eq!(evaluate("\"\"a\"\"", &[]), Ok(Some(literal(DataType::Str, "\"a\""))));
    assert_eq!(evaluate("''", &[]), Ok(Some(literal(DataType::Char, ""))));
    assert_eq!(evaluate("'ab'", &[]), Err("invalid char assignment".to_string()));
    assert_eq!(evaluate("false", &[]), Ok(Some(literal(DataType::Bool, "false"))));
    assert_eq!(evaluate("-7", &[]), Ok(Some(literal(DataType::Int, "-7"))));
    assert_eq!(evaluate("007", &[]), Ok(Some(literal(DataType::Int, "7"))));
    assert_eq!(evaluate("-0", &[]), Ok(Some(literal(DataType::Int, "0"))));
    assert_eq!(evaluate("2147483647", &[]), Ok(Some(literal(DataType::Int, "2147483647"))));
    assert_eq!(evaluate("-2147483648", &[]), Ok(Some(literal(DataType::Int, "-2147483648"))));
    assert_eq!(evaluate("2147483648", &[]), Err("invalid int assignment".to_string()));
    assert_eq!(evaluate("12a", &[]), Err("invalid int assignment".to_string()));
    assert_eq!(evaluate("-", &[]), Err("invalid int assignment".to_string()));
    assert_eq!(evaluate("-2.50", &[]), Ok(Some(literal(DataType::Float, "-2.5"))));
    assert_eq!(evaluate("1.2.3", &[]), Err("invalid float assignment".to_string()));
}

#[test]
fn variables_and_arithmetic() {
    let store = [variable("x", DataType::Int, "10"), variable("name", DataType::Str, "hasan")];
    assert_eq!(evaluate("name", &store), Ok(Some(variable("name", DataType::Str, "hasan"))));
    assert_eq!(evaluate("y", &store), Err("variable 'y' unrecognised".to_string()));
    assert_eq!(evaluate("x + 1", &store), Ok(Some(literal(DataType::Float, "11"))));
    assert_eq!(
        evaluate("1 + name", &store),
        Err("shunting yard algorithm: variable 'name' must be either an int or a float".to_string())
    );
    assert_eq!(
        evaluate("name + 1", &store),
        Err("shunting yard algorithm: variable 'name' must be either an int or a float".to_string())
    );
}

#[test]
fn calls_by_name() {
    let store = [variable("x", DataType::Int, "10")];
    assert_eq!(
        evaluate("typeof (x)", &store),
        Ok(Some(variable("$returned$", DataType::Str, "int")))
    );
    assert_eq!(
        evaluate("typeof (1 + x)", &store),
        Ok(Some(variable("$returned$", DataType::Str, "float")))
    );
    assert_eq!(
        evaluate("nameof (x)", &store),
        Ok(Some(variable("$returned$", DataType::Str, "x")))
    );
    assert_eq!(
        evaluate("eq (x, 10)", &store),
        Ok(Some(variable("$returned$", DataType::Bool, "true")))
    );
    assert_eq!(
        evaluate("eq (x, 10.0)", &store),
        Ok(Some(variable("$returned$", DataType::Bool, "false")))
    );
    assert_eq!(
        evaluate("ne (1 + 2, 3.0)", &store),
        Ok(Some(variable("$returned$", DataType::Bool, "false")))
    );
    assert_eq!(
        evaluate("format (\"x is {x}\")", &store),
        Ok(Some(variable("$returned$", DataType::Str, "x is 10")))
    );
    assert_eq!(
        evaluate("typeof (typeof (x))", &store),
        Ok(Some(variable("$returned$", DataType::Str, "str")))
    );
    assert_eq!(
        evaluate("typeof x", &store),
        Err("typeof: function call does not contain two parantheses".to_string())
    );
    assert_eq!(
        evaluate("typeof ()", &store),
        Err("typeof: function requires one argument".to_string())
    );
    assert_eq!(
        evaluate("typeof (y)", &store),
        Err("typeof: variable 'y' unrecognised".to_string())
    );
}

#[test]
fn malformed_calls_are_refused() {
    assert_eq!(silm_typeof(vec![], &[], &[]), Err(failed("function requires one argument")));
    assert_eq!(silm_nameof(vec![], &[], &[]), Err(failed("function requires one argument")));
    assert_eq!(silm_format(vec![], &[], &[]), Err(failed("command requires one argument")));
    assert_eq!(
        silm_format(vec!["x"], &[], &[]),
        Err(failed("command call does not contain two parantheses"))
    );
    assert_eq!(silm_format(vec!["()"], &[], &[]), Err(failed("command requires one argument")));
    assert_eq!(
        silm_typeof(vec!["(1"], &[], &[]),
        Err(failed("function call does not contain two parantheses"))
    );
    assert_eq!(silm_eq(vec!["(1,1)"], &[], &[]), Err(failed("function requires at least two tokens")));
    assert_eq!(
        silm_eq(vec!["1,", "1"], &[], &[]),
        Err(failed("function call does not contain two parantheses"))
    );
    assert_eq!(silm_eq(vec!["(1", "1)"], &[], &[]), Err(failed("function requires two arguments")));
    assert_eq!(silm_ne(vec!["(,", "1)"], &[], &[]), Err(failed("first argument not given")));
    assert_eq!(silm_ne(vec!["(1,", ")"], &[], &[]), Err(failed("second argument not given")));
    assert_eq!(silm_eq(vec!["(a,", "1)"], &[], &[]), Err(failed("variable 'a' unrecognised")));
}

#[test]
fn eq_and_ne_never_agree() {
    let store = [variable("s", DataType::Str, "1"), variable("n", DataType::Int, "1")];
    let cases: Vec<Vec<&str>> = vec![
        vec!["(s,", "n)"],
        vec!["(n,", "1)"],
        vec!["(s,", "\"1\")"],
        vec!["('a',", "'b')"],
        vec!["(true,", "true)"],
    ];
    for tokens in cases {
        let eq = silm_eq(tokens.clone(), &store, &[]).unwrap();
        let ne = silm_ne(tokens, &store, &[]).unwrap();
        assert_eq!(eq.datatype, DataType::Bool);
        assert_eq!(ne.datatype, DataType::Bool);
        assert_ne!(eq.value, ne.value);
    }
}

#[test]
fn format_puts_in_every_binding_in_order() {
    let store = [
        variable("a", DataType::Str, "{b}"),
        variable("b", DataType::Int, "2"),
        variable("c", DataType::Str, "{a}"),
    ];
    assert_eq!(
        silm_format(vec!["(\"{a}", "{a}", "{c}", "{d}\")"], &store, &[]).unwrap().value,
        "2 2 {a} {d}"
    );
    let empty = [variable("x", DataType::Str, "")];
    let once = silm_format(vec!["(\"{{x}x}\")"], &empty, &[]).unwrap().value;
    assert_eq!(once, "{x}");
}

#[test]
fn format_replaces_every_placeholder_and_is_idempotent() {
    let store = [variable("name", DataType::Str, "P")];
    let once = silm_format(vec!["(\"{name}", "and", "{name}{name}\")"], &store, &[])
        .unwrap()
        .value;
    assert_eq!(once, "P and PP");
    let mut second = String::from("(\"");
    second.push_str(&once);
    second.push_str("\")");
    let tokens: Vec<&str> = second.split_whitespace().collect();
    let twice = silm_format(tokens, &store, &[]).unwrap().value;
    assert_eq!(twice, once);
}

#[test]
fn call_function_knows_five_names() {
    assert!(call_function("typeof", vec!["(1)"], &[], &[]).is_some());
    assert!(call_function("nameof", vec!["(1)"], &[], &[]).is_some());
    assert!(call_function("eq", vec!["(1,", "1)"], &[], &[]).is_some());
    assert!(call_function("ne", vec!["(1,", "1)"], &[], &[]).is_some());
    assert!(call_function("format", vec!["(\"\")"], &[], &[]).is_some());
    assert!(call_function("println", vec!["(1)"], &[], &[]).is_none());
    assert_eq!(
        call_function("eq", vec!["(1)"], &[], &[]),
        Some(Err(failed("eq: function requires at least two tokens")))
    );
}
