use exploit_prover::solver::Z3Solver;

#[test]
fn test_solver_creation() {
    let solver = Z3Solver::new();
    // Just verify it can be created
    assert_eq!(std::mem::size_of_val(&solver), 0);
}

#[test]
fn read_output_sat_gives_the_model_lines() {
    let solver = Z3Solver::new();
    let answer = solver.read_output(true, "SAT\n[x = \"a\",\n y = \"b\"]\n", "");
    assert_eq!(answer, Ok(Some("[x = \"a\",\n y = \"b\"]".to_string())));
}

#[test]
fn read_output_sat_without_model_gives_an_empty_model() {
    let solver = Z3Solver::new();
    assert_eq!(solver.read_output(true, "SAT\n", ""), Ok(Some(String::new())));
    assert_eq!(solver.read_output(true, "SAT", ""), Ok(Some(String::new())));
}

#[test]
fn read_output_unsat_gives_no_model() {
    let solver = Z3Solver::new();
    assert_eq!(solver.read_output(true, "UNSAT\n", ""), Ok(None));
    assert_eq!(solver.read_output(true, "UNSAT\r\n", ""), Ok(None));
}

#[test]
fn read_output_strips_carriage_returns_before_line_feeds() {
    let solver = Z3Solver::new();
    let answer = solver.read_output(true, "SAT\r\n[x = 1]\r\n[y = 2]", "");
    assert_eq!(answer, Ok(Some("[x = 1]\n[y = 2]".to_string())));
}

#[test]
fn read_output_unknown_is_an_error() {
    let solver = Z3Solver::new();
    assert_eq!(
        solver.read_output(true, "UNKNOWN\n", ""),
        Err("Z3 returned UNKNOWN or unexpected output: UNKNOWN\n".to_string())
    );
    assert_eq!(
        solver.read_output(true, "", ""),
        Err("Z3 returned UNKNOWN or unexpected output: ".to_string())
    );
}

#[test]
fn read_output_sat_must_be_the_whole_first_line() {
    let solver = Z3Solver::new();
    assert!(solver.read_output(true, "SATISFIED\n", "").is_err());
    assert!(solver.read_output(true, "x\nSAT\n", "").is_err());
}

#[test]
fn read_output_failed_run_is_an_error() {
    let solver = Z3Solver::new();
    assert_eq!(
        solver.read_output(false, "SAT\n", "boom"),
        Err("Z3 Error: SAT\n\nStderr: boom".to_string())
    );
    assert_eq!(
        solver.read_output(true, "ERROR: z3-solver not installed\n", ""),
        Err("Z3 Error: ERROR: z3-solver not installed\n\nStderr: ".to_string())
    );
}
