use std::rc::Rc;

use oran::ast::AstNode;
use oran::ast::CalcOp;
use oran::ast::ComparisonOp;
use oran::ast::FnKind;
use oran::ast::FunctionOrValueType;
use oran::ast::LogicalOp;
use oran::ast::VarType;
use oran::env::Env;
use oran::interp::interp_expr;
use oran::value::OranValue;
use oran::value::RuntimeError;

const FUEL: u64 = 1000;

fn eval(env: &mut Env, out: &mut Vec<String>, node: &AstNode) -> Result<OranValue, RuntimeError> {
    interp_expr(0, env, node, FunctionOrValueType::Value, out, FUEL)
}

fn run(stmts: &[AstNode]) -> (Result<(), RuntimeError>, Vec<String>, Env) {
    let mut env = Env::new();
    let mut out: Vec<String> = Vec::new();
    for s in stmts {
        if let Err(e) = eval(&mut env, &mut out, s) {
            return (Err(e), out, env);
        }
    }
    (Ok(()), out, env)
}

fn num(n: i64) -> AstNode {
    AstNode::Number(n)
}

fn text(s: &str) -> AstNode {
    AstNode::Str(s.to_string())
}

fn ident(s: &str) -> AstNode {
    AstNode::Ident(s.to_string())
}

fn calc(op: CalcOp, l: AstNode, r: AstNode) -> AstNode {
    AstNode::Calc(op, Box::new(l), Box::new(r))
}

fn assign(vt: VarType, name: &str, e: AstNode) -> AstNode {
    AstNode::Assign(vt, name.to_string(), Box::new(e))
}

fn println_call(args: Vec<AstNode>) -> AstNode {
    AstNode::FunctionCall(FnKind::Println, String::new(), args)
}

fn print_call(args: Vec<AstNode>) -> AstNode {
    AstNode::FunctionCall(FnKind::Print, String::new(), args)
}

fn call(name: &str, args: Vec<AstNode>) -> AstNode {
    AstNode::FunctionCall(FnKind::UserDefined, name.to_string(), args)
}

fn define(name: &str, params: Vec<AstNode>, body: Vec<AstNode>, ret: AstNode) -> AstNode {
    AstNode::FunctionDefine(name.to_string(), Rc::new(params), Rc::new(body), Rc::new(ret))
}

#[test]
fn scenario_let_then_reassign_prints_two() {
    let stmts = vec![
        assign(VarType::VariableFirstAssigned, "x", num(1)),
        assign(VarType::VariableReAssigned, "x", calc(CalcOp::Plus, ident("x"), num(1))),
        println_call(vec![ident("x")]),
    ];
    let (r, out, _) = run(&stmts);
    assert!(r.is_ok());
    assert_eq!(out, vec!["2\n".to_string()]);
}

#[test]
fn scenario_constant_reassignment_aborts_before_output() {
    let stmts = vec![
        assign(VarType::Constant, "c", num(5)),
        assign(VarType::VariableReAssigned, "c", num(6)),
        println_call(vec![ident("c")]),
    ];
    let (r, out, _) = run(&stmts);
    assert_eq!(r, Err(RuntimeError::ConstantReassignment));
    assert!(out.is_empty());
}

#[test]
fn undeclared_reassignment_aborts() {
    let stmts = vec![assign(VarType::VariableReAssigned, "y", num(1))];
    let (r, _, _) = run(&stmts);
    assert_eq!(r, Err(RuntimeError::UndeclaredReassignment));
}

#[test]
fn scenario_user_function_add_prints_five_and_frame_is_purged() {
    let stmts = vec![
        define(
            "add",
            vec![text("a"), text("b")],
            vec![],
            calc(CalcOp::Plus, ident("a"), ident("b")),
        ),
        println_call(vec![call("add", vec![num(2), num(3)])]),
    ];
    let (r, out, mut env) = run(&stmts);
    assert!(r.is_ok());
    assert_eq!(out, vec!["5\n".to_string()]);
    let mut out2: Vec<String> = Vec::new();
    assert_eq!(
        eval(&mut env, &mut out2, &ident("a")),
        Err(RuntimeError::UndefinedIdentifier)
    );
    assert_eq!(
        eval(&mut env, &mut out2, &ident("b")),
        Err(RuntimeError::UndefinedIdentifier)
    );
}

#[test]
fn nested_calls_use_independent_frames() {
    let stmts = vec![
        define("inner", vec![text("y")], vec![], calc(CalcOp::Plus, ident("y"), num(1))),
        define("outer", vec![text("x")], vec![], call("inner", vec![ident("x")])),
        println_call(vec![call("outer", vec![num(1)])]),
    ];
    let (r, out, mut env) = run(&stmts);
    assert!(r.is_ok());
    assert_eq!(out, vec!["2\n".to_string()]);
    let mut out2: Vec<String> = Vec::new();
    assert_eq!(
        eval(&mut env, &mut out2, &ident("x")),
        Err(RuntimeError::UndefinedIdentifier)
    );
    assert_eq!(
        eval(&mut env, &mut out2, &ident("y")),
        Err(RuntimeError::UndefinedIdentifier)
    );
}

#[test]
fn scenario_inclusive_range_prints_zero_to_three() {
    let stmts = vec![AstNode::ForLoop(
        true,
        VarType::VariableFirstAssigned,
        "i".to_string(),
        Box::new(num(0)),
        Box::new(num(3)),
        vec![println_call(vec![ident("i")])],
    )];
    let (r, out, mut env) = run(&stmts);
    assert!(r.is_ok());
    assert_eq!(out, vec!["0\n", "1\n", "2\n", "3\n"]);
    let mut out2: Vec<String> = Vec::new();
    match eval(&mut env, &mut out2, &ident("i")).unwrap() {
        OranValue::Variable(v) => match v.value {
            oran::value::OranVariableValue::Number(n) => assert_eq!(n, 3),
            other => panic!("unexpected scalar {:?}", other),
        },
        other => panic!("unexpected value {:?}", other),
    }
}

#[test]
fn exclusive_range_prints_zero_to_two() {
    let stmts = vec![AstNode::ForLoop(
        false,
        VarType::VariableFirstAssigned,
        "i".to_string(),
        Box::new(num(0)),
        Box::new(num(3)),
        vec![println_call(vec![ident("i")])],
    )];
    let (r, out, _) = run(&stmts);
    assert!(r.is_ok());
    assert_eq!(out, vec!["0\n", "1\n", "2\n"]);
}

#[test]
fn scenario_else_if_prints_b_only() {
    let stmts = vec![AstNode::IF(
        Box::new(AstNode::Bool(false)),
        vec![println_call(vec![text("a")])],
        vec![(vec![AstNode::Bool(true)], vec![println_call(vec![text("b")])])],
        vec![println_call(vec![text("c")])],
    )];
    let (r, out, _) = run(&stmts);
    assert!(r.is_ok());
    assert_eq!(out, vec!["b\n".to_string()]);
}

#[test]
fn logical_operators_evaluate_both_sides() {
    let or_node = AstNode::Condition(
        LogicalOp::Or,
        Box::new(print_call(vec![text("L")])),
        Box::new(print_call(vec![text("R")])),
    );
    let (r, out, _) = run(&[or_node]);
    assert!(r.is_ok());
    assert_eq!(out, vec!["L".to_string(), "R".to_string()]);

    let and_node = AstNode::Condition(
        LogicalOp::And,
        Box::new(print_call(vec![text("l")])),
        Box::new(print_call(vec![text("")])),
    );
    let mut env = Env::new();
    let mut out2: Vec<String> = Vec::new();
    let rv = eval(&mut env, &mut out2, &and_node).unwrap();
    assert_eq!(out2, vec!["l".to_string(), "".to_string()]);
    match rv {
        OranValue::Boolean(b) => assert!(b),
        other => panic!("unexpected value {:?}", other),
    }
}

#[test]
fn condition_string_false_is_truthy() {
    let stmts = vec![AstNode::IF(
        Box::new(text("false")),
        vec![println_call(vec![text("t")])],
        vec![],
        vec![println_call(vec![text("f")])],
    )];
    let (r, out, _) = run(&stmts);
    assert!(r.is_ok());
    assert_eq!(out, vec!["t\n".to_string()]);
}

#[test]
fn condition_empty_string_is_false() {
    let stmts = vec![AstNode::IF(
        Box::new(text("")),
        vec![println_call(vec![text("t")])],
        vec![],
        vec![println_call(vec![text("f")])],
    )];
    let (r, out, _) = run(&stmts);
    assert!(r.is_ok());
    assert_eq!(out, vec!["f\n".to_string()]);
}

#[test]
fn arithmetic_exact_results() {
    let cases: Vec<(AstNode, i64)> = vec![
        (calc(CalcOp::Plus, num(2), num(3)), 5),
        (calc(CalcOp::Minus, num(2), num(3)), -1),
        (calc(CalcOp::Times, num(-4), num(3)), -12),
        (calc(CalcOp::Divide, num(7), num(2)), 3),
        (calc(CalcOp::Divide, num(-7), num(2)), -3),
        (calc(CalcOp::Modulus, num(7), num(2)), 1),
        (calc(CalcOp::Modulus, num(-7), num(2)), -1),
        (calc(CalcOp::Power, num(2), num(10)), 1024),
        (calc(CalcOp::Power, num(2), num(0)), 1),
        (calc(CalcOp::Power, num(2), num(-1)), 0),
        (calc(CalcOp::Plus, num(i64::MAX), num(1)), i64::MIN),
    ];
    for (node, expect) in cases {
        let mut env = Env::new();
        let mut out: Vec<String> = Vec::new();
        match eval(&mut env, &mut out, &node).unwrap() {
            OranValue::Number(n) => assert_eq!(n, expect),
            other => panic!("unexpected value {:?}", other),
        }
    }
}

#[test]
fn arithmetic_errors() {
    let cases: Vec<(AstNode, RuntimeError)> = vec![
        (calc(CalcOp::Divide, num(1), num(0)), RuntimeError::DivisionByZero),
        (calc(CalcOp::Modulus, num(1), num(0)), RuntimeError::DivisionByZero),
        (calc(CalcOp::Power, num(0), num(-2)), RuntimeError::DivisionByZero),
        (calc(CalcOp::Plus, AstNode::Bool(true), num(1)), RuntimeError::TypeMismatchArithmetic),
        (calc(CalcOp::Plus, num(1), AstNode::Bool(true)), RuntimeError::TypeMismatchArithmetic),
        (calc(CalcOp::Plus, text("a"), num(1)), RuntimeError::TypeMismatchArithmetic),
        (calc(CalcOp::Plus, num(1), text("abc")), RuntimeError::ParseCoercionFailure),
    ];
    for (node, expect) in cases {
        let mut env = Env::new();
        let mut out: Vec<String> = Vec::new();
        assert_eq!(eval(&mut env, &mut out, &node), Err(expect));
    }
}

#[test]
fn string_operand_coerces_on_the_right() {
    let node = calc(CalcOp::Plus, num(1), text("41"));
    let mut env = Env::new();
    let mut out: Vec<String> = Vec::new();
    match eval(&mut env, &mut out, &node).unwrap() {
        OranValue::Number(n) => assert_eq!(n, 42),
        other => panic!("unexpected value {:?}", other),
    }
    let node = calc(CalcOp::Plus, num(1), AstNode::Null);
    match eval(&mut env, &mut out, &node).unwrap() {
        OranValue::Number(n) => assert_eq!(n, 1),
        other => panic!("unexpected value {:?}", other),
    }
}

#[test]
fn comparison_results() {
    let cases: Vec<(AstNode, bool)> = vec![
        (AstNode::Comparison(Box::new(num(2)), ComparisonOp::SmallerThan, Box::new(num(3))), true),
        (AstNode::Comparison(Box::new(num(2)), ComparisonOp::BiggerThan, Box::new(num(3))), false),
        (AstNode::Comparison(Box::new(num(3)), ComparisonOp::EbiggerThan, Box::new(num(3))), true),
        (AstNode::Comparison(Box::new(num(3)), ComparisonOp::EsmallerThan, Box::new(num(2))), false),
        (AstNode::Comparison(Box::new(num(3)), ComparisonOp::Equal, Box::new(num(3))), true),
        (AstNode::Comparison(Box::new(text("3")), ComparisonOp::Equal, Box::new(num(3))), true),
        (AstNode::Comparison(Box::new(text("3.0")), ComparisonOp::Equal, Box::new(num(3))), false),
    ];
    for (node, expect) in cases {
        let mut env = Env::new();
        let mut out: Vec<String> = Vec::new();
        match eval(&mut env, &mut out, &node).unwrap() {
            OranValue::Boolean(b) => assert_eq!(b, expect),
            other => panic!("unexpected value {:?}", other),
        }
    }
}

#[test]
fn ordering_comparison_on_text_is_refused() {
    let node = AstNode::Comparison(Box::new(text("a")), ComparisonOp::BiggerThan, Box::new(num(1)));
    let mut env = Env::new();
    let mut out: Vec<String> = Vec::new();
    assert_eq!(eval(&mut env, &mut out, &node), Err(RuntimeError::TypeMismatchComparison));
}

#[test]
fn interpolation_concatenates_stringified_parts() {
    let node = AstNode::Strs(vec![text("a"), num(1), AstNode::Bool(true), AstNode::Null, num(-2)]);
    let mut env = Env::new();
    let mut out: Vec<String> = Vec::new();
    match eval(&mut env, &mut out, &node).unwrap() {
        OranValue::Str(s) => assert_eq!(s, "a1true-2"),
        other => panic!("unexpected value {:?}", other),
    }
}

#[test]
fn print_and_println_chunks() {
    let stmts = vec![
        print_call(vec![text("a"), num(1)]),
        println_call(vec![text("b")]),
    ];
    let (r, out, _) = run(&stmts);
    assert!(r.is_ok());
    assert_eq!(out, vec!["a1".to_string(), "b\n".to_string()]);
}

#[test]
fn undefined_identifier_and_function_errors() {
    let mut env = Env::new();
    let mut out: Vec<String> = Vec::new();
    assert_eq!(
        eval(&mut env, &mut out, &ident("nope")),
        Err(RuntimeError::UndefinedIdentifier)
    );
    assert_eq!(
        eval(&mut env, &mut out, &call("nope", vec![])),
        Err(RuntimeError::UndefinedFunction)
    );
}

#[test]
fn missing_argument_error() {
    let stmts = vec![
        define(
            "add",
            vec![text("a"), text("b")],
            vec![],
            calc(CalcOp::Plus, ident("a"), ident("b")),
        ),
        call("add", vec![num(1)]),
    ];
    let (r, _, _) = run(&stmts);
    assert_eq!(r, Err(RuntimeError::MissingArgument));
}

#[test]
fn unbounded_recursion_hits_the_depth_limit() {
    let stmts = vec![
        define("f", vec![], vec![], call("f", vec![])),
        call("f", vec![]),
    ];
    let (r, _, _) = run(&stmts);
    assert_eq!(r, Err(RuntimeError::RecursionLimit));
}

#[test]
fn assignment_returns_the_bound_variable() {
    let mut env = Env::new();
    let mut out: Vec<String> = Vec::new();
    match eval(&mut env, &mut out, &assign(VarType::VariableFirstAssigned, "x", num(9))).unwrap() {
        OranValue::Variable(v) => {
            assert_eq!(v.var_type, VarType::VariableFirstAssigned);
            assert_eq!(v.name, "x");
            match v.value {
                oran::value::OranVariableValue::Number(n) => assert_eq!(n, 9),
                other => panic!("unexpected scalar {:?}", other),
            }
        },
        other => panic!("unexpected value {:?}", other),
    }
}

#[test]
fn argument_node_binds_and_returns_its_name() {
    let mut env = Env::new();
    let mut out: Vec<String> = Vec::new();
    let node = AstNode::Argument("p".to_string(), Box::new(num(7)));
    match eval(&mut env, &mut out, &node).unwrap() {
        OranValue::Str(s) => assert_eq!(s, "p"),
        other => panic!("unexpected value {:?}", other),
    }
    match eval(&mut env, &mut out, &ident("p")).unwrap() {
        OranValue::Number(n) => assert_eq!(n, 7),
        other => panic!("unexpected value {:?}", other),
    }
}

#[test]
fn variable_and_function_may_share_a_name() {
    let stmts = vec![
        assign(VarType::VariableFirstAssigned, "twin", num(4)),
        define("twin", vec![], vec![], num(11)),
        println_call(vec![ident("twin"), text(":"), call("twin", vec![])]),
    ];
    let (r, out, _) = run(&stmts);
    assert!(r.is_ok());
    assert_eq!(out, vec!["4:11\n".to_string()]);
}
