use exploit_prover::constraint_gen::{is_valid_var_name, ConstraintGenerator};
use exploit_prover::PathNode;

#[test]
fn test_generate_smt_basic() {
    let gen = ConstraintGenerator::new();
    let nodes = vec![
        PathNode {
            line: 1,
            code: "user_id = request.args.get('id')".to_string(),
            description: "User input".to_string(),
        },
        PathNode {
            line: 2,
            code: "query = f\"SELECT * FROM users WHERE id = {user_id}\"".to_string(),
            description: "Query construction".to_string(),
        },
    ];
    let result = gen.generate_smt(&nodes, "query");
    assert!(result.contains("(set-logic QF_S)"));
    assert!(result.contains("(declare-const"));
    assert!(result.contains("(check-sat)"));
}

#[test]
fn test_generate_smt_declares_variables() {
    let gen = ConstraintGenerator::new();
    let nodes = vec![PathNode {
        line: 1,
        code: "user_id = input()".to_string(),
        description: "Input".to_string(),
    }];
    let result = gen.generate_smt(&nodes, "user_id");
    assert!(result.contains("(declare-const user_id String)"));
}

#[test]
fn test_generate_smt_handles_fstring() {
    let gen = ConstraintGenerator::new();
    let nodes = vec![PathNode {
        line: 1,
        code: "query = f\"SELECT {id}\"".to_string(),
        description: "Query".to_string(),
    }];
    let result = gen.generate_smt(&nodes, "query");
    assert!(result.contains("str.++") || result.contains("query"));
}

#[test]
fn test_parse_fstring_simple() {
    let gen = ConstraintGenerator::new();
    let result = gen.parse_f_string("f\"Hello {name}\"");
    assert!(result.contains("str.++"));
    assert!(result.contains("name"));
}

#[test]
fn test_parse_fstring_multiple_vars() {
    let gen = ConstraintGenerator::new();
    let result = gen.parse_f_string("f\"SELECT {col} FROM {table}\"");
    assert!(result.contains("col"));
    assert!(result.contains("table"));
}

#[test]
fn test_is_valid_var_name() {
    assert!(is_valid_var_name("user_id"));
    assert!(is_valid_var_name("var123"));
    assert!(!is_valid_var_name(""));
    assert!(!is_valid_var_name("123abc"));
    assert!(!is_valid_var_name("user-id"));
}

#[test]
fn test_generate_smt_empty_path() {
    let gen = ConstraintGenerator::new();
    let result = gen.generate_smt(&[], "query");
    assert!(result.contains("(check-sat)"));
}

#[test]
fn test_generate_smt_no_duplicates() {
    let gen = ConstraintGenerator::new();
    let nodes = vec![
        PathNode {
            line: 1,
            code: "x = input()".to_string(),
            description: "Input".to_string(),
        },
        PathNode {
            line: 2,
            code: "y = x".to_string(),
            description: "Assign".to_string(),
        },
    ];
    let result = gen.generate_smt(&nodes, "y");
    let count = result.matches("(declare-const x String)").count();
    assert_eq!(count, 1, "Should only declare x once");
}

#[test]
fn test_generate_smt_literal_string() {
    let gen = ConstraintGenerator::new();
    let nodes = vec![PathNode {
        line: 1,
        code: "status = \"active\"".to_string(),
        description: "Literal".to_string(),
    }];
    let result = gen.generate_smt(&nodes, "status");
    assert!(result.contains("active"));
}

#[test]
fn test_generate_smt_chained_assignment() {
    let gen = ConstraintGenerator::new();
    let nodes = vec![
        PathNode {
            line: 1,
            code: "a = input()".to_string(),
            description: "Input".to_string(),
        },
        PathNode {
            line: 2,
            code: "b = a".to_string(),
            description: "Chain".to_string(),
        },
    ];
    let result = gen.generate_smt(&nodes, "b");
    assert!(result.contains("(assert (= b a))"));
}

#[test]
fn test_generate_smt_contains_goal() {
    let gen = ConstraintGenerator::new();
    let nodes = vec![PathNode {
        line: 1,
        code: "query = input()".to_string(),
        description: "Input".to_string(),
    }];
    let result = gen.generate_smt(&nodes, "query");
    assert!(result.contains("str.contains"));
    assert!(result.contains("' OR '1'='1"));
}

#[test]
fn test_parse_fstring_no_variables() {
    let gen = ConstraintGenerator::new();
    let result = gen.parse_f_string("f\"SELECT * FROM users\"");
    assert!(result.contains("SELECT * FROM users"));
}

#[test]
fn test_parse_fstring_trailing_literal() {
    let gen = ConstraintGenerator::new();
    let result = gen.parse_f_string("f\"Value: {x} end\"");
    assert!(result.contains("x"));
    assert!(result.contains("end"));
}

#[test]
fn test_generate_smt_complex_path() {
    let gen = ConstraintGenerator::new();
    let nodes = vec![
        PathNode {
            line: 1,
            code: "user_id = request.args.get('id')".to_string(),
            description: "Input".to_string(),
        },
        PathNode {
            line: 2,
            code: "sanitized = user_id".to_string(),
            description: "Pass through".to_string(),
        },
        PathNode {
            line: 3,
            code: "query = f\"SELECT * WHERE id = {sanitized}\"".to_string(),
            description: "Query".to_string(),
        },
    ];
    let result = gen.generate_smt(&nodes, "query");
    assert!(result.contains("user_id"));
    assert!(result.contains("sanitized"));
    assert!(result.contains("query"));
}

#[test]
fn a_quoted_literal_keeps_its_letters() {
    let gen = ConstraintGenerator::new();
    let nodes = vec![PathNode {
        line: 1,
        code: "x = \"off\"".to_string(),
        description: "Literal".to_string(),
    }];
    let result = gen.generate_smt(&nodes, "x");
    assert!(result.contains("(assert (= x \"off\"))"));
    assert!(!result.contains("(assert (= x \"o\"))"));

    let single = vec![PathNode {
        line: 1,
        code: "flag = 'fluff'".to_string(),
        description: "Literal".to_string(),
    }];
    let result = gen.generate_smt(&single, "flag");
    assert!(result.contains("(assert (= flag \"fluff\"))"));
}
