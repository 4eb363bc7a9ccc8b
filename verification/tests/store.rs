use silm::store::{assign, get_variable};
use silm::value::{render, represent_datatype, DataType, Variable};

#[test]
fn test_assign() {
    let mut variables: Vec<Variable> = Vec::new();

    variables.push(Variable {
        identifier: "already_there".to_string(),
        datatype: DataType::Bool,
        value: "false".to_string(),
    });

    let new_variable = Variable {
        identifier: "new_var".to_string(),
        datatype: DataType::Int,
        value: "10".to_string(),
    };

    assign(new_variable, &mut variables);

    assert!(variables
        .iter()
        .any(|variable| variable.identifier == "new_var".to_string()
            && variable.datatype == DataType::Int
            && variable.value == "10".to_string()));

    assign(
        Variable {
            identifier: "already_there".to_string(),
            datatype: DataType::Str,
            value: "changed now!".to_string(),
        },
        &mut variables,
    );

    assert!(variables.iter().any(
        |variable| variable.identifier == "already_there".to_string()
            && variable.datatype == DataType::Str
            && variable.value == "changed now!".to_string()
    ));
}

#[test]
fn test_get_variable() {
    let mut variables: Vec<Variable> = Vec::new();

    let new_variable = Variable {
        identifier: "name".to_string(),
        datatype: DataType::Str,
        value: "hasan".to_string(),
    };

    variables.push(new_variable.clone());

    assert_eq!(get_variable("name", &variables), Some(new_variable));
    assert_eq!(get_variable("$uninitialised$", &variables), None);
}

#[test]
fn assign_twice_is_assign_once() {
    let mut variables: Vec<Variable> = Vec::new();
    let x = Variable { identifier: "x".to_string(), datatype: DataType::Int, value: "1".to_string() };
    assign(x.clone(), &mut variables);
    let once = variables.clone();
    assign(x.clone(), &mut variables);
    assert_eq!(variables, once);
    assert_eq!(variables.len(), 1);
}

#[test]
fn assign_overwrites_in_place() {
    let mut variables: Vec<Variable> = Vec::new();
    for (name, value) in [("a", "1"), ("b", "2"), ("c", "3")] {
        assign(
            Variable { identifier: name.to_string(), datatype: DataType::Int, value: value.to_string() },
            &mut variables,
        );
    }
    assign(
        Variable { identifier: "b".to_string(), datatype: DataType::Str, value: "two".to_string() },
        &mut variables,
    );
    assert_eq!(variables.len(), 3);
    assert_eq!(variables[1].identifier, "b");
    assert_eq!(variables[1].datatype, DataType::Str);
    assert_eq!(variables[1].value, "two");
    assert_eq!(variables[0].value, "1");
    assert_eq!(variables[2].value, "3");
}

#[test]
fn kinds_have_names() {
    assert_eq!(represent_datatype(DataType::Int), "int");
    assert_eq!(represent_datatype(DataType::Float), "float");
    assert_eq!(represent_datatype(DataType::Str), "str");
    assert_eq!(represent_datatype(DataType::Char), "char");
    assert_eq!(represent_datatype(DataType::Bool), "bool");
    assert_eq!(represent_datatype(DataType::Block), "block");
}

#[test]
fn render_is_the_text() {
    let x = Variable { identifier: "x".to_string(), datatype: DataType::Float, value: "2.5".to_string() };
    assert_eq!(render(&x), "2.5");
}
