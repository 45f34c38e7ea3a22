use caseflow::ast::{BinaryOperator, Expr, Value};
use caseflow::engine::CoreEngine;
use caseflow::models::CaseConfig;
use caseflow::ops::{call_builtin, values_equal};
use caseflow::order::{compare_values, value_to_string};
use caseflow::text::int_to_text;
use caseflow::ast::Builtin;

fn record(id: i32, status: &str, priority: i32) -> CaseConfig {
    CaseConfig {
        id,
        category: "bug".to_string(),
        status: status.to_string(),
        priority,
        customer: None,
        score: 0,
    }
}

#[test]
fn scenario_simple_arithmetic_scoring() {
    let mut engine = CoreEngine::new();
    engine.add_case(record(1, "open", 4));
    engine
        .execute_workflow_from_source("workflow w { score { when priority > 3 then score = priority * 10 } }")
        .unwrap();
    assert_eq!(engine.get_cases()[0].score, 40);
}

#[test]
fn scenario_cumulative_rules() {
    let mut engine = CoreEngine::new();
    engine.add_case(record(1, "open", 2));
    engine
        .execute_workflow_from_source(
            "workflow w { score { when true then score = 10  when true then score = score + 5 } }",
        )
        .unwrap();
    assert_eq!(engine.get_cases()[0].score, 15);
}

#[test]
fn scenario_filter_keeps_order() {
    let mut engine = CoreEngine::new();
    engine.add_cases(vec![record(1, "open", 1), record(2, "closed", 1), record(3, "open", 1)]);
    engine.execute_workflow_from_source("workflow w { filter { when status == \"open\" } }").unwrap();
    let cases = engine.get_cases();
    assert_eq!(cases.len(), 2);
    assert_eq!(cases[0].id, 1);
    assert_eq!(cases[1].id, 3);
}

#[test]
fn scenario_sort_desc_by_score() {
    let mut engine = CoreEngine::new();
    engine.add_cases(vec![record(1, "open", 3), record(2, "open", 8), record(3, "open", 5)]);
    engine
        .execute_workflow_from_source("workflow w { score { when true then score = priority }  sort { by score desc } }")
        .unwrap();
    let scores: Vec<i64> = engine.get_cases().iter().map(|c| c.score).collect();
    assert_eq!(scores, vec![8, 5, 3]);
}

#[test]
fn scenario_user_function() {
    let mut engine = CoreEngine::new();
    engine.add_case(record(1, "open", 7));
    engine
        .execute_program_from_source(
            "function double(x) = x * 2  workflow w { score { when true then score = double(priority) } }",
        )
        .unwrap();
    assert_eq!(engine.get_cases()[0].score, 14);
}

#[test]
fn scenario_match_with_assignment() {
    let mut engine = CoreEngine::new();
    engine.add_case(record(7, "open", 1));
    engine
        .execute_workflow_from_source(
            "workflow w { score { when true then score = 100 }  match { when score > 50 then assign to urgent } }",
        )
        .unwrap();
    match engine.get_variable("urgent") {
        Some(Value::Dict(m)) => {
            assert_eq!(m.get("id"), Some(&Value::String("7".to_string())));
            assert_eq!(m.get("score"), Some(&Value::String("100".to_string())));
        },
        other => panic!("expected a map, got {:?}", other),
    }
}

#[test]
fn record_count_kept_without_filter() {
    let mut engine = CoreEngine::new();
    engine.add_cases(vec![record(1, "open", 1), record(2, "closed", 2)]);
    engine
        .execute_workflow_from_source("workflow w { score { when true then score = 1 } sort { by id desc } match { when true then assign to x } }")
        .unwrap();
    assert_eq!(engine.case_count(), 2);
}

#[test]
fn sort_is_stable_for_equal_keys() {
    let mut engine = CoreEngine::new();
    engine.add_cases(vec![record(1, "open", 2), record(2, "open", 1), record(3, "open", 2), record(4, "open", 1)]);
    engine.execute_workflow_from_source("workflow w { sort { by priority } }").unwrap();
    let ids: Vec<i32> = engine.get_cases().iter().map(|c| c.id).collect();
    assert_eq!(ids, vec![2, 4, 1, 3]);
    engine.execute_workflow_from_source("workflow w { sort { by priority desc } }").unwrap();
    let ids: Vec<i32> = engine.get_cases().iter().map(|c| c.id).collect();
    assert_eq!(ids, vec![1, 3, 2, 4]);
}

#[test]
fn score_binding_follows_record_score() {
    let mut engine = CoreEngine::new();
    engine.add_case(record(1, "open", 3));
    engine
        .execute_workflow_from_source(
            "workflow w { score { when true then score = 5 when score == 5 then score = score * 3 } }",
        )
        .unwrap();
    assert_eq!(engine.get_cases()[0].score, 15);
}

#[test]
fn scope_depth_restored_after_failure() {
    let mut engine = CoreEngine::new();
    engine.add_case(record(1, "open", 3));
    let r = engine.execute_workflow_from_source("workflow w { score { when missing > 1 then score = 1 } }");
    assert_eq!(r, Err("Undefined variable: missing".to_string()));
    engine.set_variable("after", Value::Number(1));
    assert!(engine.get_variable("id").is_none());
    assert_eq!(engine.get_cases()[0].score, 0);
}

#[test]
fn empty_list_membership_is_false() {
    let mut engine = CoreEngine::new();
    assert_eq!(engine.evaluate_expression_from_string("1 in []"), Ok(Value::Bool(false)));
}

#[test]
fn length_of_empty_string_is_zero() {
    let mut engine = CoreEngine::new();
    assert_eq!(engine.evaluate_expression_from_string("len(\"\")"), Ok(Value::Number(0)));
}

#[test]
fn logical_operators_evaluate_both_sides() {
    let mut engine = CoreEngine::new();
    let r = engine.evaluate_expression_from_string("false and 1 / 0");
    assert_eq!(r, Err("Division by zero".to_string()));
    assert_eq!(engine.evaluate_expression_from_string("0 or \"x\""), Ok(Value::String("x".to_string())));
    assert_eq!(engine.evaluate_expression_from_string("3 and 4"), Ok(Value::Number(4)));
}

#[test]
fn member_access_on_scalar_fails() {
    let mut engine = CoreEngine::new();
    engine.set_variable("n", Value::Number(3));
    let r = engine.evaluate_expression_from_string("n.size");
    assert_eq!(r, Err("Cannot access property 'size' on object 'n' of this type".to_string()));
    let r = engine.evaluate_expression_from_string("nothing.size");
    assert_eq!(r, Err("Unknown object: nothing".to_string()));
}

#[test]
fn type_and_arity_errors() {
    let mut engine = CoreEngine::new();
    assert_eq!(engine.evaluate_expression_from_string("1 - \"a\""), Err("Cannot subtract non-numbers".to_string()));
    assert_eq!(engine.evaluate_expression_from_string("1 + true"), Err("Cannot add these types".to_string()));
    assert_eq!(engine.evaluate_expression_from_string("2 * \"a\""), Err("Cannot multiply non-numbers".to_string()));
    assert_eq!(engine.evaluate_expression_from_string("\"a\" / 2"), Err("Cannot divide non-numbers".to_string()));
    assert_eq!(engine.evaluate_expression_from_string("\"a\" < 2"), Err("Cannot compare non-numbers".to_string()));
    assert_eq!(engine.evaluate_expression_from_string("-\"a\""), Err("Cannot negate non-number".to_string()));
    assert_eq!(engine.evaluate_expression_from_string("len(1, 2)"), Err("len() takes exactly 1 argument".to_string()));
    assert_eq!(engine.evaluate_expression_from_string("len(5)"), Err("len() can only be applied to lists or strings".to_string()));
    assert_eq!(engine.evaluate_expression_from_string("max()"), Err("max() requires at least 1 argument".to_string()));
    assert_eq!(engine.evaluate_expression_from_string("min(1, \"a\")"), Err("min() can only be applied to numbers".to_string()));
    assert_eq!(engine.evaluate_expression_from_string("contains(1)"), Err("contains() takes exactly 2 arguments".to_string()));
    assert_eq!(engine.evaluate_expression_from_string("contains(1, 2)"), Err("contains() first argument must be a list or string".to_string()));
    assert_eq!(engine.evaluate_expression_from_string("1 in 2"), Err("'in' operation requires list or string on right side".to_string()));
    assert_eq!(engine.evaluate_expression_from_string("1 in \"a\""), Err("'in' operation with string requires string on left side".to_string()));
    assert_eq!(engine.evaluate_expression_from_string("9223372036854775807 + 1"), Err("Integer overflow".to_string()));
    assert_eq!(engine.evaluate_expression_from_string("nope(1)"), Err("Unknown function: nope".to_string()));
}

#[test]
fn score_must_be_a_number() {
    let mut engine = CoreEngine::new();
    engine.add_case(record(1, "open", 3));
    let r = engine.execute_workflow_from_source("workflow w { score { when true then score = \"high\" } }");
    assert_eq!(r, Err("Score must be a number".to_string()));
}

#[test]
fn user_function_arity_error_message() {
    let mut engine = CoreEngine::new();
    engine.add_case(record(1, "open", 3));
    let r = engine.execute_program_from_source("function add(x, y) = x + y workflow w { score { when add(1) > 0 then score = 1 } }");
    assert_eq!(r, Err("Function 'add' expects 2 arguments, got 1".to_string()));
}

#[test]
fn runaway_recursion_stops() {
    let mut engine = CoreEngine::new();
    engine.add_case(record(1, "open", 3));
    let r = engine.execute_program_from_source("function f(x) = f(x) workflow w { score { when f(1) then score = 1 } }");
    assert_eq!(r, Err("Maximum call depth exceeded".to_string()));
}

#[test]
fn return_inside_branch_ends_the_call() {
    let mut engine = CoreEngine::new();
    engine.add_case(record(1, "open", 3));
    engine
        .execute_program_from_source(
            "function f(x) { if x > 1 { return 10; } return 20; } workflow w { score { when true then score = f(priority) } }",
        )
        .unwrap();
    assert_eq!(engine.get_cases()[0].score, 10);
}

#[test]
fn parse_errors_and_workflow_count() {
    let engine = CoreEngine::new();
    assert!(engine.parse_workflow("workflow {").is_err());
    assert_eq!(engine.parse_workflow("function f() = 1").unwrap_err(), "No workflows found in source");
    let mut engine = CoreEngine::new();
    let r = engine.execute_workflow_from_source("workflow a { } workflow b { }");
    assert!(r.unwrap_err().starts_with("Multiple workflows found"));
}

#[test]
fn helpers_give_exact_values() {
    assert_eq!(int_to_text(-405), "-405");
    assert_eq!(int_to_text(0), "0");
    assert_eq!(value_to_string(&Value::Bool(true)), "true");
    assert_eq!(value_to_string(&Value::Null), "null");
    assert_eq!(compare_values(&Value::Number(2), &Value::Number(10)), -1);
    assert_eq!(compare_values(&Value::String("b".to_string()), &Value::String("ab".to_string())), 1);
    assert_eq!(compare_values(&Value::Number(10), &Value::String("5".to_string())), -1);
    assert_eq!(compare_values(&Value::Bool(false), &Value::Bool(true)), -1);
    assert!(values_equal(
        &Value::List(vec![Value::Number(1), Value::String("a".to_string())]),
        &Value::List(vec![Value::Number(1), Value::String("a".to_string())]),
    ));
    assert!(!values_equal(&Value::Number(1), &Value::String("1".to_string())));
    let args = vec![Value::Number(4), Value::Number(-2), Value::Number(9)];
    assert_eq!(call_builtin(Builtin::Max, &args), Ok(Value::Number(9)));
    assert_eq!(call_builtin(Builtin::Min, &args), Ok(Value::Number(-2)));
    let texts = vec![Value::String("hello".to_string()), Value::String("ell".to_string())];
    assert_eq!(call_builtin(Builtin::Contains, &texts), Ok(Value::Bool(true)));
}

#[test]
fn parsed_expression_shape() {
    let e = caseflow::parser::parse_expression("1 + 2 * 3").unwrap();
    match e {
        Expr::BinaryOp { op: BinaryOperator::Add, right, .. } => match *right {
            Expr::BinaryOp { op: BinaryOperator::Mul, .. } => {},
            other => panic!("unexpected right operand {:?}", other),
        },
        other => panic!("unexpected expression {:?}", other),
    }
}

#[test]
fn sort_cases_by_key_function() {
    let mut engine = CoreEngine::new();
    engine.add_cases(vec![record(1, "open", 3), record(2, "open", 1), record(3, "open", 2)]);
    engine.sort_cases_by(|c| c.priority as i64);
    let ids: Vec<i32> = engine.get_cases().iter().map(|c| c.id).collect();
    assert_eq!(ids, vec![2, 3, 1]);
}

#[test]
fn maps_compare_by_keys_and_values() {
    let mut a = caseflow::ast::ValueMap::new();
    a.insert("x".to_string(), Value::Number(1));
    a.insert("y".to_string(), Value::String("two".to_string()));
    let mut b = caseflow::ast::ValueMap::new();
    b.insert("y".to_string(), Value::String("two".to_string()));
    b.insert("x".to_string(), Value::Number(1));
    let mut c = caseflow::ast::ValueMap::new();
    c.insert("x".to_string(), Value::Number(1));
    c.insert("y".to_string(), Value::String("three".to_string()));
    assert_eq!(Value::Dict(a.clone()), Value::Dict(b.clone()));
    assert_ne!(Value::Dict(a.clone()), Value::Dict(c.clone()));
    let mut engine = CoreEngine::new();
    engine.set_variable("a", Value::Dict(a));
    engine.set_variable("b", Value::Dict(b));
    engine.set_variable("c", Value::Dict(c));
    assert_eq!(engine.evaluate_expression_from_string("a == b"), Ok(Value::Bool(true)));
    assert_eq!(engine.evaluate_expression_from_string("a != c"), Ok(Value::Bool(true)));
    assert_eq!(engine.evaluate_expression_from_string("b in [1, a]"), Ok(Value::Bool(true)));
}

#[test]
fn match_does_not_publish_record_field_names() {
    let mut engine = CoreEngine::new();
    engine.add_case(record(1, "open", 3));
    engine
        .execute_workflow_from_source("workflow w { match { when true then assign to status } }")
        .unwrap();
    assert!(engine.get_variable("status").is_none());
    engine
        .execute_workflow_from_source("workflow w { match { when true then assign to picked } }")
        .unwrap();
    assert!(engine.get_variable("picked").is_some());
}

#[test]
fn parse_errors_name_their_category() {
    let engine = CoreEngine::new();
    let e = engine.parse_program("workflow w { score { when then } }").unwrap_err();
    assert!(e.starts_with("Parse error: "));
    let e = engine.parse_workflow("workflow w { \"open }").unwrap_err();
    assert!(e.starts_with("Parse error: "));
    let e = engine.parse_workflow("workflow w { score { when x == 99999999999999999999 then score = 1 } }").unwrap_err();
    assert_eq!(e, "Parse error: number too large");
}
