use caseflow::ast::Value;
use caseflow::engine::CoreEngine;
use caseflow::models::CaseConfig;


fn create_test_case(id: i32, category: &str, status: &str, priority: i32, customer: Option<&str>) -> CaseConfig {
    CaseConfig {
        id,
        category: category.to_string(),
        status: status.to_string(),
        priority,
        customer: customer.map(|s| s.to_string()),
        score: 0,
    }
}

#[test]
fn test_engine_creation() {
    let engine = CoreEngine::new();
    assert_eq!(engine.case_count(), 0);
    assert!(!engine.has_cases());
}

#[test]
fn test_add_single_case() {
    let mut engine = CoreEngine::new();
    let case = create_test_case(1, "bug", "open", 3, Some("customer1"));

    engine.add_case(case);

    assert_eq!(engine.case_count(), 1);
    assert!(engine.has_cases());
    assert_eq!(engine.get_cases()[0].id, 1);
}

#[test]
fn test_add_multiple_cases() {
    let mut engine = CoreEngine::new();
    let cases = vec![
        create_test_case(1, "bug", "open", 3, Some("customer1")),
        create_test_case(2, "feature", "closed", 2, None),
        create_test_case(3, "critical", "open", 5, Some("vip")),
    ];

    engine.add_cases(cases);

    assert_eq!(engine.case_count(), 3);
    assert!(engine.has_cases());
}

#[test]
fn test_clear_cases() {
    let mut engine = CoreEngine::new();
    let case = create_test_case(1, "bug", "open", 3, Some("customer1"));

    engine.add_case(case);
    assert_eq!(engine.case_count(), 1);

    engine.clear_cases();
    assert_eq!(engine.case_count(), 0);
    assert!(!engine.has_cases());
}

#[test]
fn test_parse_workflow() {
    let engine = CoreEngine::new();
    let source = r#"
        workflow test {
            score {
                when priority > 2 then score = 10
            }
        }
    "#;

    let workflows = engine.parse_workflow(source).unwrap();
    assert_eq!(workflows.len(), 1);
    assert_eq!(workflows[0].name, "test");
}

#[test]
fn test_parse_invalid_workflow() {
    let engine = CoreEngine::new();
    let source = "invalid workflow syntax";

    let result = engine.parse_workflow(source);
    assert!(result.is_err());
}

#[test]
fn test_execute_workflow_from_source() {
    let mut engine = CoreEngine::new();
    let case = create_test_case(1, "bug", "open", 4, Some("customer1"));
    engine.add_case(case);

    let source = r#"
        workflow scoring {
            score {
                when priority > 3 then score = priority * 10
            }
        }
    "#;

    engine.execute_workflow_from_source(source).unwrap();

    let processed_cases = engine.get_cases();
    assert_eq!(processed_cases[0].score, 40);
}

#[test]
fn test_execute_multiple_workflows() {
    let mut engine = CoreEngine::new();
    let case = create_test_case(1, "bug", "open", 3, Some("customer1"));
    engine.add_case(case);

    let source = r#"
        workflow first {
            score {
                when priority > 2 then score = 10
            }
        }

        workflow second {
            score {
                when score > 5 then score = score + 5
            }
        }
    "#;

    engine.execute_workflows_from_source(source).unwrap();

    let processed_cases = engine.get_cases();
    assert_eq!(processed_cases[0].score, 15); // 10 + 5
}

#[test]
fn test_variable_management() {
    let mut engine = CoreEngine::new();

    // Set a variable
    engine.set_variable("test_var", Value::Number(42));

    // Get the variable
    let value = engine.get_variable("test_var");
    assert!(value.is_some());
    match value.unwrap() {
        Value::Number(n) => assert_eq!(n, 42),
        _ => panic!("Expected number value"),
    }

    // Check variable names
    let names = engine.get_variable_names();
    assert!(names.contains(&"test_var".to_string()));
}

#[test]
fn test_scope_management() {
    let mut engine = CoreEngine::new();

    engine.set_variable("outer", Value::String("outer_value".to_string()));

    engine.enter_scope();
    engine.set_variable("inner", Value::String("inner_value".to_string()));

    // Both variables should be accessible
    assert!(engine.get_variable("outer").is_some());
    assert!(engine.get_variable("inner").is_some());

    engine.exit_scope();

    // Only outer variable should be accessible
    assert!(engine.get_variable("outer").is_some());
    assert!(engine.get_variable("inner").is_none());
}

#[test]
fn test_score_cases_function() {
    let mut engine = CoreEngine::new();
    let cases = vec![
        create_test_case(1, "bug", "open", 3, Some("customer1")),
        create_test_case(2, "feature", "closed", 2, None),
    ];

    engine.add_cases(cases);

    // Score based on priority
    engine.score_cases(|case| case.priority as i64 * 5).unwrap();

    let processed_cases = engine.get_cases();
    assert_eq!(processed_cases[0].score, 15); // 3 * 5
    assert_eq!(processed_cases[1].score, 10); // 2 * 5
}

#[test]
fn test_filter_cases() {
    let mut engine = CoreEngine::new();
    let cases = vec![
        create_test_case(1, "bug", "open", 3, Some("customer1")),
        create_test_case(2, "feature", "closed", 2, None),
        create_test_case(3, "bug", "open", 5, Some("vip")),
    ];

    engine.add_cases(cases);

    // Filter to only bug cases
    engine.filter_cases(|case| case.category == "bug");

    assert_eq!(engine.case_count(), 2);
    for case in engine.get_cases() {
        assert_eq!(case.category, "bug");
    }
}

#[test]
fn test_sort_cases() {
    let mut engine = CoreEngine::new();
    let mut cases = vec![
        create_test_case(1, "bug", "open", 3, Some("customer1")),
        create_test_case(2, "feature", "closed", 5, None),
        create_test_case(3, "critical", "open", 1, Some("vip")),
    ];

    // Set different scores
    cases[0].score = 30;
    cases[1].score = 10;
    cases[2].score = 50;

    engine.add_cases(cases);

    // Sort by score descending
    engine.sort_cases_by_score_desc();

    let sorted_cases = engine.get_cases();
    assert_eq!(sorted_cases[0].score, 50);
    assert_eq!(sorted_cases[1].score, 30);
    assert_eq!(sorted_cases[2].score, 10);

    // Sort by score ascending
    engine.sort_cases_by_score_asc();

    let sorted_cases = engine.get_cases();
    assert_eq!(sorted_cases[0].score, 10);
    assert_eq!(sorted_cases[1].score, 30);
    assert_eq!(sorted_cases[2].score, 50);
}

#[test]
fn test_get_cases_by_criteria() {
    let mut engine = CoreEngine::new();
    let mut cases = vec![
        create_test_case(1, "bug", "open", 3, Some("customer1")),
        create_test_case(2, "feature", "closed", 2, None),
        create_test_case(3, "bug", "open", 5, Some("vip")),
    ];

    // Set scores
    cases[0].score = 80;
    cases[1].score = 20;
    cases[2].score = 90;

    engine.add_cases(cases);

    // Test high score cases
    let high_score_cases = engine.get_high_score_cases(50);
    assert_eq!(high_score_cases.len(), 2);

    // Test low score cases
    let low_score_cases = engine.get_low_score_cases(50);
    assert_eq!(low_score_cases.len(), 1);

    // Test cases by category
    let bug_cases = engine.get_cases_by_category("bug");
    assert_eq!(bug_cases.len(), 2);

    // Test cases by status
    let open_cases = engine.get_cases_by_status("open");
    assert_eq!(open_cases.len(), 2);
}

#[test]
fn test_evaluate_expression_from_string() {
    let mut engine = CoreEngine::new();

    // Set up some variables
    engine.set_variable("x", Value::Number(10));
    engine.set_variable("y", Value::Number(5));

    // Test simple arithmetic
    let result = engine.evaluate_expression_from_string("x + y").unwrap();
    match result {
        Value::Number(n) => assert_eq!(n, 15),
        _ => panic!("Expected number result"),
    }

    // Test comparison
    let result = engine.evaluate_expression_from_string("x > y").unwrap();
    match result {
        Value::Bool(b) => assert!(b),
        _ => panic!("Expected boolean result"),
    }
}

#[test]
fn test_reset_engine() {
    let mut engine = CoreEngine::new();
    let case = create_test_case(1, "bug", "open", 3, Some("customer1"));

    engine.add_case(case);
    engine.set_variable("test", Value::Number(42));

    assert_eq!(engine.case_count(), 1);
    assert!(engine.get_variable("test").is_some());

    engine.reset();

    assert_eq!(engine.case_count(), 0);
    assert!(engine.get_variable("test").is_none());
}

#[test]
fn test_get_cases_copy() {
    let mut engine = CoreEngine::new();
    let case = create_test_case(1, "bug", "open", 3, Some("customer1"));

    engine.add_case(case);

    let cases_copy = engine.get_cases_copy();
    assert_eq!(cases_copy.len(), 1);
    assert_eq!(cases_copy[0].id, 1);

    // Verify it's a copy by clearing the engine's own records
    engine.clear_cases();
    assert_eq!(engine.case_count(), 0);
    assert_eq!(cases_copy.len(), 1); // Copy should be unchanged
}

#[test]
fn test_backward_compatibility_run() {
    let mut engine = CoreEngine::new();
    let case = create_test_case(1, "bug", "open", 3, Some("customer1"));

    engine.add_case(case);

    let result = engine.run().unwrap();
    assert_eq!(result.len(), 1);
    assert_eq!(result[0].id, 1);
}

#[test]
fn test_default_implementation() {
    let engine = CoreEngine::default();
    assert_eq!(engine.case_count(), 0);
}

#[test]
fn test_complex_workflow_execution() {
    let mut engine = CoreEngine::new();
    let cases = vec![
        create_test_case(1, "critical", "open", 5, Some("vip_customer")),
        create_test_case(2, "bug", "closed", 2, Some("regular_customer")),
        create_test_case(3, "feature", "open", 4, Some("enterprise_customer")),
    ];

    engine.add_cases(cases);

    let source = r#"
        workflow comprehensive {
            score {
                when priority > 3 then score = priority * 15
                when category == "bug" then score = score + 30
                when category == "critical" then score = score + 50
                when status == "open" then score = score + 10
                when contains(["vip", "enterprise"], customer) then score = score + 25
            }
            match {
                when score > 80 then assign to urgent_queue
                when score > 50 then assign to high_priority_queue
                when score > 20 then assign to normal_queue
            }
        }
    "#;

    engine.execute_workflow_from_source(source).unwrap();

    let processed_cases = engine.get_cases();

    // Case 1: critical, priority 5, open, vip -> 75 + 50 + 10 = 135 (contains doesn't match "vip_customer")
    assert_eq!(processed_cases[0].score, 135);

    // Case 2: bug, priority 2, closed, regular -> 0 + 30 + 0 + 0 = 30
    assert_eq!(processed_cases[1].score, 30);

    // Case 3: feature, priority 4, open, enterprise -> 60 + 0 + 10 + 0 = 70 (contains doesn't match "enterprise_customer")
    assert_eq!(processed_cases[2].score, 70);

    // Check variable assignments
    assert!(engine.get_variable("urgent_queue").is_some());
    assert!(engine.get_variable("high_priority_queue").is_some());
    assert!(engine.get_variable("normal_queue").is_some());
}

#[test]
fn test_user_defined_functions() {
    let mut engine = CoreEngine::new();
    let cases = vec![
        create_test_case(1, "bug", "open", 3, Some("customer1")),
        create_test_case(2, "feature", "closed", 5, Some("customer2")),
        create_test_case(3, "critical", "open", 1, None),
    ];

    engine.add_cases(cases);

    // Test program with user-defined functions
    let program_source = r#"
        function double(x) = x * 2
        function priority_bonus(p) = p > 3
        function calculate_base_score(priority, multiplier) = priority * multiplier + 10
        function is_high_priority(category, priority) = category == "critical" or priority > 4

        workflow scoring_with_functions {
            score {
                when priority_bonus(priority) then score = calculate_base_score(priority, 20)
                when !priority_bonus(priority) then score = double(priority)
                when is_high_priority(category, priority) then score = score + 50
                when customer != "" then score = score + 5
            }
            match {
                when score > 100 then assign to high_priority_cases
                when score > 50 then assign to medium_priority_cases
                when score > 0 then assign to low_priority_cases
            }
        }
    "#;

    engine.execute_program_from_source(program_source).unwrap();

    let processed_cases = engine.get_cases();

    // Case 1: bug, priority 3, open, customer1
    // priority_bonus(3) = false, so score = double(3) = 6
    // is_high_priority("bug", 3) = false, so no +50
    // customer != "" = true, so score = 6 + 5 = 11
    assert_eq!(processed_cases[0].score, 11);

    // Case 2: feature, priority 5, closed, customer2
    // priority_bonus(5) = true, so score = calculate_base_score(5, 20) = 5 * 20 + 10 = 110
    // is_high_priority("feature", 5) = true, so score = 110 + 50 = 160
    // customer != "" = true, so score = 160 + 5 = 165
    assert_eq!(processed_cases[1].score, 165);

    // Case 3: critical, priority 1, open, no customer
    // priority_bonus(1) = false, so score = double(1) = 2
    // is_high_priority("critical", 1) = true, so score = 2 + 50 = 52
    // customer == "" = false, so no +5
    assert_eq!(processed_cases[2].score, 52);

    // Check that user-defined functions were registered
    let function_names = engine.get_user_function_names();
    assert!(function_names.contains(&"double".to_string()));
    assert!(function_names.contains(&"priority_bonus".to_string()));
    assert!(function_names.contains(&"calculate_base_score".to_string()));
    assert!(function_names.contains(&"is_high_priority".to_string()));
    assert_eq!(function_names.len(), 4);

    // Check variable assignments
    assert!(engine.get_variable("high_priority_cases").is_some());
    assert!(engine.get_variable("medium_priority_cases").is_some());
    assert!(engine.get_variable("low_priority_cases").is_some());
}

#[test]
fn test_user_defined_function_errors() {
    let mut engine = CoreEngine::new();
    engine.add_case(create_test_case(1, "bug", "open", 3, Some("customer1")));

    // Test function with wrong number of arguments
    let program_source = r#"
        function add(x, y) = x + y

        workflow test {
            score {
                when add(1) > 0 then score = 10
            }
        }
    "#;

    let result = engine.execute_program_from_source(program_source);
    assert!(result.is_err());
    assert!(result.unwrap_err().contains("expects 2 arguments, got 1"));
}

#[test]
fn test_user_defined_function_with_builtin_functions() {
    let mut engine = CoreEngine::new();
    engine.add_case(create_test_case(1, "documentation", "open", 2, Some("test_customer")));

    // Test user-defined function that uses built-in functions
    let program_source = r#"
        function category_score(cat) = len(cat) * 5
        function customer_bonus(cust) = contains(["test", "vip"], cust)

        workflow mixed_functions {
            score {
                when true then score = category_score(category)
                when customer_bonus(customer) then score = score + max(10, 20, 15)
            }
        }
    "#;

    engine.execute_program_from_source(program_source).unwrap();

    let processed_cases = engine.get_cases();

    // category_score("documentation") = len("documentation") * 5 = 13 * 5 = 65
    // customer_bonus("test_customer") = contains(["test", "vip"], "test_customer") = false
    // So final score should be 65
    assert_eq!(processed_cases[0].score, 65);
}

#[test]
fn test_recursive_user_defined_functions() {
    let mut engine = CoreEngine::new();
    engine.add_case(create_test_case(1, "bug", "open", 5, Some("customer1")));

    // Test recursive function (factorial)
    let program_source = r#"
        function factorial(n) = n < 2

        workflow recursive_test {
            score {
                when factorial(priority) then score = 1
                when !factorial(priority) then score = priority * 10
            }
        }
    "#;

    engine.execute_program_from_source(program_source).unwrap();

    let processed_cases = engine.get_cases();

    // factorial(5) = false (since 5 >= 2), so score = 5 * 10 = 50
    assert_eq!(processed_cases[0].score, 50);
}

#[test]
fn test_user_defined_function_scope() {
    let mut engine = CoreEngine::new();
    engine.add_case(create_test_case(1, "bug", "open", 3, Some("customer1")));

    // Set a global variable
    engine.set_variable("global_multiplier", Value::Number(100));

    // Test that user-defined functions have their own scope
    let program_source = r#"
        function scoped_function(x) = x + global_multiplier

        workflow scope_test {
            score {
                when true then score = scoped_function(priority)
            }
        }
    "#;

    engine.execute_program_from_source(program_source).unwrap();

    let processed_cases = engine.get_cases();

    // scoped_function(3) = 3 + 100 = 103
    assert_eq!(processed_cases[0].score, 103);

    // Global variable should still exist
    assert_eq!(engine.get_variable("global_multiplier"), Some(Value::Number(100)));
}

#[test]
fn test_block_based_user_defined_functions() {
    let mut engine = CoreEngine::new();
    engine.add_case(create_test_case(1, "bug", "open", 5, Some("customer1")));

    // Test block-based functions with let statements, if statements, and return
    let program_source = r#"
        function calculate_complex_score(base_priority) {
            let multiplier = 10;
            let bonus = 5;
            if base_priority > 3 {
                let extra_bonus = 20;
                return base_priority * multiplier + bonus + extra_bonus;
            } else {
                return base_priority * multiplier + bonus;
            }
        }

        function simple_expression(x) = x * 2

        workflow block_function_test {
            score {
                when priority > 3 then score = calculate_complex_score(priority)
                when priority < 4 then score = simple_expression(priority)
            }
        }
    "#;

    engine.execute_program_from_source(program_source).unwrap();

    let processed_cases = engine.get_cases();

    // calculate_complex_score(5): multiplier=10, bonus=5, extra_bonus=20
    // 5 * 10 + 5 + 20 = 75
    assert_eq!(processed_cases[0].score, 75);
}

#[test]
fn test_mixed_function_types() {
    let mut engine = CoreEngine::new();
    engine.add_case(create_test_case(1, "bug", "open", 2, Some("customer1")));

    // Test mixing expression-based and block-based functions
    let program_source = r#"
        function is_high_priority(p) = p > 3

        function calculate_score(priority, category) {
            let base_score = priority * 5;
            if category == "bug" {
                let bug_bonus = 10;
                return base_score + bug_bonus;
            } else {
                return base_score;
            }
        }

        workflow mixed_functions_test {
            score {
                when !is_high_priority(priority) then score = priority * 3
            }
        }
    "#;

    let result = engine.execute_program_from_source(program_source);
    if let Err(e) = &result {
        println!("Error: {}", e);
    }
    result.unwrap();

    let processed_cases = engine.get_cases();

    // Case 1: priority=2, !is_high_priority(2) = true, score = 2 * 3 = 6
    assert_eq!(processed_cases[0].score, 6);
}

#[test]
fn test_assignment_statements() {
    let mut engine = CoreEngine::new();
    engine.add_case(create_test_case(1, "technical", "open", 3, Some("customer1")));

    // Test assignment statements in block-based functions
    let program_source = r#"
        function calculate_with_assignments(base) {
            let total = 0;
            total = total + base;
            total = total * 2;
            let bonus = 10;
            total = total + bonus;
            return total;
        }

        workflow assignment_test {
            score {
                when true then score = calculate_with_assignments(priority)
            }
        }
    "#;

    let result = engine.execute_program_from_source(program_source);
    if let Err(e) = &result {
        println!("Error: {}", e);
    }
    result.unwrap();

    let processed_cases = engine.get_cases();

    // calculate_with_assignments(3):
    // total = 0 + 3 = 3
    // total = 3 * 2 = 6  
    // total = 6 + 10 = 16
    assert_eq!(processed_cases[0].score, 16);
}
