use oran::ast::ComparisonOp;
use oran::ast::FunctionOrValueType;
use oran::ast::VarType;
use oran::env::Env;
use oran::interp::is_mutable;
use oran::numeric::number_to_text;
use oran::numeric::text_to_number;
use oran::value::compare_values;
use oran::value::to_bool;
use oran::value::to_num;
use oran::value::to_text;
use oran::value::OranValue;
use oran::value::OranVariable;
use oran::value::OranVariableValue;
use oran::value::RuntimeError;

fn s(v: &str) -> OranValue {
    OranValue::Str(v.to_string())
}

#[test]
fn string_truth_is_decided_by_emptiness_alone() {
    assert!(!to_bool(&s("")));
    assert!(to_bool(&s("false")));
    assert!(to_bool(&s("0")));
    assert!(to_bool(&s("anything")));
}

#[test]
fn scalar_truth_table() {
    assert!(!to_bool(&OranValue::Number(0)));
    assert!(to_bool(&OranValue::Number(-3)));
    assert!(!to_bool(&OranValue::Null));
    assert!(to_bool(&OranValue::Boolean(true)));
    assert!(!to_bool(&OranValue::Boolean(false)));
    let wrapped = OranValue::Variable(OranVariable {
        var_type: VarType::Constant,
        name: "w".to_string(),
        value: OranVariableValue::Number(0),
    });
    assert!(!to_bool(&wrapped));
}

#[test]
fn stringification_table() {
    assert_eq!(to_text(&OranValue::Number(-5)), "-5");
    assert_eq!(to_text(&OranValue::Number(0)), "0");
    assert_eq!(to_text(&s("hi")), "hi");
    assert_eq!(to_text(&OranValue::Boolean(true)), "true");
    assert_eq!(to_text(&OranValue::Boolean(false)), "false");
    assert_eq!(to_text(&OranValue::Null), "");
    let wrapped = OranValue::Variable(OranVariable {
        var_type: VarType::VariableFirstAssigned,
        name: "w".to_string(),
        value: OranVariableValue::Str("inner".to_string()),
    });
    assert_eq!(to_text(&wrapped), "inner");
}

#[test]
fn numeric_coercion_table() {
    assert_eq!(to_num(&OranValue::Number(7)), Ok(7));
    assert_eq!(to_num(&s("42")), Ok(42));
    assert_eq!(to_num(&s("-3")), Ok(-3));
    assert_eq!(to_num(&OranValue::Null), Ok(0));
    assert_eq!(to_num(&s("4.5")), Err(RuntimeError::ParseCoercionFailure));
    assert_eq!(to_num(&OranValue::Boolean(true)), Err(RuntimeError::TypeMismatchArithmetic));
}

#[test]
fn equality_compares_text_for_strings() {
    let eq = |a: OranValue, b: OranValue| match compare_values(ComparisonOp::Equal, &a, &b) {
        Ok(OranValue::Boolean(r)) => r,
        other => panic!("unexpected result {:?}", other),
    };
    assert!(eq(s("3"), OranValue::Number(3)));
    assert!(!eq(s("3.0"), OranValue::Number(3)));
    assert!(eq(OranValue::Number(3), s("3")));
    assert!(!eq(OranValue::Number(3), s("3.0")));
    assert!(eq(OranValue::Null, OranValue::Null));
    assert!(!eq(OranValue::Null, OranValue::Number(0)));
    assert!(eq(OranValue::Number(0), OranValue::Null));
    assert!(eq(s("ab"), s("ab")));
    assert!(!eq(s("ab"), s("ba")));
}

#[test]
fn decimal_text_round_trip() {
    assert_eq!(number_to_text(0), "0");
    assert_eq!(number_to_text(42), "42");
    assert_eq!(number_to_text(-42), "-42");
    assert_eq!(number_to_text(i64::MIN), "-9223372036854775808");
    assert_eq!(number_to_text(i64::MAX), "9223372036854775807");
    assert_eq!(text_to_number("0"), Some(0));
    assert_eq!(text_to_number("+7"), Some(7));
    assert_eq!(text_to_number("007"), Some(7));
    assert_eq!(text_to_number("-9223372036854775808"), Some(i64::MIN));
    assert_eq!(text_to_number("9223372036854775808"), None);
    assert_eq!(text_to_number(""), None);
    assert_eq!(text_to_number("-"), None);
    assert_eq!(text_to_number("3.0"), None);
    assert_eq!(text_to_number("1e3"), None);
    assert_eq!(text_to_number(" 1"), None);
}

#[test]
fn environment_insert_get_overwrite_and_purge() {
    let mut env = Env::new();
    let name = "k".to_string();
    env.insert(0, FunctionOrValueType::Value, name.clone(), OranValue::Number(1));
    env.insert(1, FunctionOrValueType::Value, name.clone(), OranValue::Number(2));
    env.insert(0, FunctionOrValueType::Function, name.clone(), OranValue::Number(3));
    match env.get(0, FunctionOrValueType::Value, &name) {
        Some(OranValue::Number(n)) => assert_eq!(*n, 1),
        other => panic!("unexpected binding {:?}", other),
    }
    env.insert(0, FunctionOrValueType::Value, name.clone(), OranValue::Number(9));
    match env.get(0, FunctionOrValueType::Value, &name) {
        Some(OranValue::Number(n)) => assert_eq!(*n, 9),
        other => panic!("unexpected binding {:?}", other),
    }
    env.purge(1);
    assert!(env.get(1, FunctionOrValueType::Value, &name).is_none());
    assert!(env.get(0, FunctionOrValueType::Value, &name).is_some());
    assert!(env.get(0, FunctionOrValueType::Function, &name).is_some());
}

#[test]
fn mutability_guard_rules_in_order() {
    let mut env = Env::new();
    assert_eq!(is_mutable(0, &env, "x", &VarType::VariableFirstAssigned), Ok(()));
    assert_eq!(
        is_mutable(0, &env, "x", &VarType::VariableReAssigned),
        Err(RuntimeError::UndeclaredReassignment)
    );
    env.insert(
        0,
        FunctionOrValueType::Value,
        "x".to_string(),
        OranValue::Variable(OranVariable {
            var_type: VarType::Constant,
            name: "x".to_string(),
            value: OranVariableValue::Number(1),
        }),
    );
    assert_eq!(
        is_mutable(0, &env, "x", &VarType::VariableReAssigned),
        Err(RuntimeError::ConstantReassignment)
    );
    assert_eq!(is_mutable(0, &env, "x", &VarType::VariableFirstAssigned), Ok(()));
    env.insert(
        0,
        FunctionOrValueType::Value,
        "y".to_string(),
        OranValue::Variable(OranVariable {
            var_type: VarType::VariableFirstAssigned,
            name: "y".to_string(),
            value: OranVariableValue::Number(1),
        }),
    );
    assert_eq!(is_mutable(0, &env, "y", &VarType::VariableReAssigned), Ok(()));
    // a reassignment in a deeper scope does not see the outer binding
    assert_eq!(
        is_mutable(1, &env, "y", &VarType::VariableReAssigned),
        Err(RuntimeError::UndeclaredReassignment)
    );
}
