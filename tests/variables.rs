use async_graphql::bind::{bind_argument, ArgValue, VariableDef};
use async_graphql::complete::{execute, Resolved, ResolvedField};
use async_graphql::schedule::{root_schedule, OperationKind};
use async_graphql::value::Value;

fn s(x: &str) -> String {
    x.to_string()
}

fn var(name: &str) -> ArgValue {
    ArgValue::Variable(s(name))
}

fn def(name: &str, default: Option<Value>) -> VariableDef {
    VariableDef { name: s(name), default }
}

fn field(key: &str, outcome: Resolved) -> ResolvedField {
    ResolvedField { key: s(key), nullable: false, outcome }
}

fn int_or_ten(arg: Option<Value>) -> Value {
    match arg {
        Some(Value::Number(n)) => Value::Number(n),
        _ => Value::Number(10),
    }
}

fn input_value(arg: &Value) -> i64 {
    match arg {
        Value::Object(fields) => {
            for (k, v) in fields {
                if k == "value" {
                    if let Value::Number(n) = v {
                        return *n;
                    }
                }
            }
            panic!("input object without value")
        }
        _ => panic!("not an input object"),
    }
}

#[test]
fn test_variables() {
    let list: Vec<Value> = (1..=5).map(Value::Number).collect();
    let provided = vec![(s("intVal"), Value::Number(10)), (s("intListVal"), Value::List(list))];
    let defs = vec![def("intVal", None), def("intListVal", None)];
    let int_val = bind_argument(&var("intVal"), &provided, &defs).unwrap();
    let int_list = bind_argument(&var("intListVal"), &provided, &defs).unwrap();
    let items = match int_list {
        Value::List(items) => items.into_iter().map(Resolved::Leaf).collect(),
        _ => panic!("not a list"),
    };
    let root = Resolved::Object(vec![
        field("intVal", Resolved::Leaf(int_val)),
        field("intListVal", Resolved::List(false, items)),
    ]);
    let resp = execute(&root);
    let expected_list: Vec<Value> = (1..=5).map(Value::Number).collect();
    assert_eq!(
        resp.data.unwrap(),
        Value::Object(vec![(s("intVal"), Value::Number(10)), (s("intListVal"), Value::List(expected_list))])
    );
    assert!(resp.errors.is_empty());
}

#[test]
fn test_variable_default_value() {
    let defs = vec![def("intVal", Some(Value::Number(10)))];
    let arg = bind_argument(&var("intVal"), &vec![], &defs).unwrap();
    let root = Resolved::Object(vec![field("intVal", Resolved::Leaf(arg))]);
    assert_eq!(execute(&root).data.unwrap(), Value::Object(vec![(s("intVal"), Value::Number(10))]));
}

#[test]
fn test_variable_no_value() {
    let defs = vec![def("intVal", None)];
    let arg = bind_argument(&var("intVal"), &vec![], &defs);
    assert_eq!(arg, None);
    let root = Resolved::Object(vec![field("intVal", Resolved::Leaf(int_or_ten(arg)))]);
    let resp = execute(&root);
    assert!(resp.errors.is_empty());
    assert_eq!(resp.data.unwrap(), Value::Object(vec![(s("intVal"), Value::Number(10))]));
}

#[test]
fn test_variable_null() {
    let provided = vec![(s("intVal"), Value::Null)];
    let defs = vec![def("intVal", None)];
    let arg = bind_argument(&var("intVal"), &provided, &defs);
    assert_eq!(arg, Some(Value::Null));
    let root = Resolved::Object(vec![field("intVal", Resolved::Leaf(int_or_ten(arg)))]);
    assert_eq!(execute(&root).data.unwrap(), Value::Object(vec![(s("intVal"), Value::Number(10))]));
}

#[test]
fn test_variable_in_input_object() {
    let defs = vec![def("value", None)];
    let input = || ArgValue::Object(vec![(s("value"), var("value"))]);

    // query
    let provided = vec![(s("value"), Value::Number(10))];
    let arg = bind_argument(&input(), &provided, &defs).unwrap();
    let root = Resolved::Object(vec![field("test", Resolved::Leaf(Value::Number(input_value(&arg))))]);
    assert_eq!(execute(&root).data.unwrap(), Value::Object(vec![(s("test"), Value::Number(10))]));

    // query with a list of input objects
    let provided = vec![(s("value"), Value::Number(3))];
    let arg = bind_argument(&ArgValue::List(vec![input(), input()]), &provided, &defs).unwrap();
    let sum: i64 = match &arg {
        Value::List(items) => items.iter().map(input_value).sum(),
        _ => panic!("not a list"),
    };
    let root = Resolved::Object(vec![field("test2", Resolved::Leaf(Value::Number(sum)))]);
    assert_eq!(execute(&root).data.unwrap(), Value::Object(vec![(s("test2"), Value::Number(6))]));

    // mutation
    let provided = vec![(s("value"), Value::Number(10))];
    assert_eq!(root_schedule(OperationKind::Mutation, 1), vec![vec![0]]);
    let arg = bind_argument(&input(), &provided, &defs).unwrap();
    let root = Resolved::Object(vec![field("test", Resolved::Leaf(Value::Number(input_value(&arg))))]);
    assert_eq!(execute(&root).data.unwrap(), Value::Object(vec![(s("test"), Value::Number(10))]));
}

#[test]
fn provided_value_wins_over_default() {
    let provided = vec![(s("intVal"), Value::Number(3))];
    let defs = vec![def("intVal", Some(Value::Number(10)))];
    assert_eq!(bind_argument(&var("intVal"), &provided, &defs), Some(Value::Number(3)));
}

#[test]
fn unbound_variable_in_list_is_null() {
    let arg = ArgValue::List(vec![ArgValue::Const(Value::Number(1)), var("missing")]);
    assert_eq!(
        bind_argument(&arg, &vec![], &vec![]),
        Some(Value::List(vec![Value::Number(1), Value::Null]))
    );
}
