use exploit_prover::constraint_gen::ConstraintGenerator;
use exploit_prover::cross_slicer::CrossFileSlicer;
use exploit_prover::indexer::SourceFile;
use exploit_prover::prover::{scripts_for, ExploitProver};
use exploit_prover::python_parser::PythonParser;
use exploit_prover::slicer::{BackwardSlicer, ValueSource};
use exploit_prover::solver::SolverAnswer;
use exploit_prover::{ExploitStatus, Sink, SinkType};

const SQLI: &str = "user_id = request.args.get('id')\nquery = f\"SELECT * FROM users WHERE id = {user_id}\"\ncursor.execute(query)";

const SQLI_SCRIPT: &str = "(set-logic QF_S)\n(declare-const query String)\n(declare-const user_id String)\n(assert (= query (str.++ \"SELECT * FROM users WHERE id = \" user_id)))\n(assert (str.contains user_id \"' OR '1'='1\"))\n(check-sat)\n(get-model)\n";

fn slicer_for(source: &str) -> BackwardSlicer {
    let mut parser = PythonParser::new().unwrap();
    let tree = parser.parse(source).unwrap();
    let mut slicer = BackwardSlicer::new();
    slicer.analyze(source, &tree);
    slicer
}

#[test]
fn sqli_via_fstring_is_one_sink_on_the_execute_line() {
    let mut parser = PythonParser::new().unwrap();
    let sinks = parser.find_sinks(SQLI).unwrap();
    assert_eq!(sinks.len(), 1);
    assert_eq!(sinks[0].sink_type, SinkType::SqlInjection);
    assert_eq!(sinks[0].line, 3);
    assert_eq!(sinks[0].column, 0);
    assert_eq!(sinks[0].code_snippet, "cursor.execute(query)");
    assert_eq!(sinks[0].tainted_vars, vec!["query".to_string()]);
}

#[test]
fn sqli_via_fstring_is_exploitable_with_an_entry_row() {
    let mut prover = ExploitProver::new().unwrap();
    let result = prover.analyze(SQLI, &Vec::new(), 7);
    assert!(result.success);
    assert_eq!(result.status, ExploitStatus::Exploitable);
    assert_eq!(result.analysis_time_ms, 7);
    assert_eq!(result.sinks.len(), 1);
    let lines: Vec<usize> = result.attack_path.iter().map(|p| p.line).collect();
    assert_eq!(lines, vec![3, 2, 1]);
    assert_eq!(result.attack_path[0].code, "cursor.execute(query)");
    assert_eq!(
        result.attack_path[0].description,
        "SINK: SQL Injection - User input in database query"
    );
    assert_eq!(result.attack_path[1].code, "query = f\"SELECT * FROM users WHERE id = {user_id}\"");
    assert_eq!(result.attack_path[1].description, "FLOW: Variable derivation");
    assert_eq!(result.attack_path[2].code, "user_id = request.args.get('id')");
    assert_eq!(result.attack_path[2].description, "ENTRY: User input from request.args");
}

#[test]
fn sqli_via_fstring_gives_the_script() {
    let mut prover = ExploitProver::new().unwrap();
    let scripts = prover.solver_scripts(SQLI);
    assert_eq!(scripts, vec![SQLI_SCRIPT.to_string()]);
    assert!(scripts[0].contains("(declare-const user_id String)"));
    assert!(scripts[0].contains("(str.contains"));
    assert!(scripts[0].contains("\"' OR '1'='1\")"));
}

#[test]
fn sqli_verdict_follows_the_solver() {
    let mut prover = ExploitProver::new().unwrap();
    let unsat: Vec<SolverAnswer> = vec![Ok(None)];
    let result = prover.analyze(SQLI, &unsat, 0);
    assert_eq!(result.status, ExploitStatus::Safe);
    assert_eq!(result.sinks.len(), 1);
    assert!(result.attack_path.is_empty());
    assert!(result.payload.is_none());

    let sat: Vec<SolverAnswer> = vec![Ok(Some("[user_id = \"' OR '1'='1\"]".to_string()))];
    let result = prover.analyze(SQLI, &sat, 0);
    assert_eq!(result.status, ExploitStatus::Exploitable);
    assert!(result.explanation.ends_with(
        "\n\nMathematical Proof (Z3 Model):\n--------------------------------\n[user_id = \"' OR '1'='1\"]"
    ));

    let failed: Vec<SolverAnswer> = vec![Err("no solver".to_string())];
    let result = prover.analyze(SQLI, &failed, 0);
    assert_eq!(result.status, ExploitStatus::Exploitable);
    assert!(!result.explanation.contains("Mathematical Proof"));
}

#[test]
fn parameterized_query_is_no_sink() {
    let source = "cursor.execute(\"SELECT * FROM users WHERE id = ?\", (user_id,))";
    let mut parser = PythonParser::new().unwrap();
    let sinks = parser.find_sinks(source).unwrap();
    assert!(sinks.is_empty());
    let mut prover = ExploitProver::new().unwrap();
    let result = prover.analyze(source, &Vec::new(), 0);
    assert!(result.status == ExploitStatus::Safe || result.status == ExploitStatus::NoSinksFound);
    assert!(result.sinks.is_empty());
}

#[test]
fn sql_sink_reads_its_first_argument_only() {
    let source = "cursor.execute(query, (user_id, other))";
    let mut parser = PythonParser::new().unwrap();
    let sinks = parser.find_sinks(source).unwrap();
    assert_eq!(sinks.len(), 1);
    assert_eq!(sinks[0].tainted_vars, vec!["query".to_string()]);
}

#[test]
fn other_sinks_read_all_arguments() {
    let source = "subprocess.run(cmd, shell=flag)";
    let mut parser = PythonParser::new().unwrap();
    let sinks = parser.find_sinks(source).unwrap();
    assert_eq!(sinks.len(), 1);
    assert_eq!(sinks[0].sink_type, SinkType::CommandInjection);
    assert_eq!(
        sinks[0].tainted_vars,
        vec!["cmd".to_string(), "shell".to_string(), "flag".to_string()]
    );
}

#[test]
fn attribute_argument_gives_its_dotted_text_as_one_name() {
    let mut parser = PythonParser::new().unwrap();
    let sinks = parser.find_sinks("os.system(self.cmd)").unwrap();
    assert_eq!(sinks.len(), 1);
    assert_eq!(sinks[0].tainted_vars, vec!["self.cmd".to_string()]);

    let sinks = parser.find_sinks("cursor.execute(self.query)").unwrap();
    assert_eq!(sinks.len(), 1);
    assert_eq!(sinks[0].sink_type, SinkType::SqlInjection);
    assert_eq!(sinks[0].tainted_vars, vec!["self.query".to_string()]);

    let sinks = parser.find_sinks("eval(a.b.c + d)").unwrap();
    assert_eq!(sinks[0].tainted_vars, vec!["a.b.c".to_string(), "d".to_string()]);
}

#[test]
fn the_path_follows_every_tainted_name_of_the_sink() {
    let source = "a = request.args.get('a')\nb = request.form.get('b')\nos.system(a + b)";
    let mut parser = PythonParser::new().unwrap();
    let tree = parser.parse(source).unwrap();
    let mut slicer = BackwardSlicer::new();
    slicer.analyze(source, &tree);
    let sink = Sink {
        sink_type: SinkType::CommandInjection,
        line: 3,
        column: 0,
        code_snippet: "os.system(a + b)".to_string(),
        tainted_vars: vec!["a".to_string(), "b".to_string()],
    };
    let path = slicer.trace_to_entry_point(&sink, source).unwrap();
    let lines: Vec<usize> = path.iter().map(|p| p.line).collect();
    assert_eq!(lines, vec![3, 1, 2]);
    assert_eq!(path[1].description, "ENTRY: User input from request.args");
    assert_eq!(path[2].description, "ENTRY: User input from request.form");
    assert!(path.len() <= 1 + slicer.definitions().len());
}

#[test]
fn names_that_share_definitions_share_their_rows() {
    let source = "a = request.args.get('a')\nb = a\nc = a\nos.system(b + c + x + b)";
    let mut prover = ExploitProver::new().unwrap();
    let result = prover.analyze(source, &Vec::new(), 0);
    let lines: Vec<usize> = result.attack_path.iter().map(|p| p.line).collect();
    assert_eq!(lines, vec![4, 2, 1, 3]);
}

#[test]
fn a_source_without_a_syntax_tree_is_inconclusive() {
    let mut prover = ExploitProver::new().unwrap();
    let result = prover.analyze("eval(x\n", &Vec::new(), 9);
    assert!(!result.success);
    assert_eq!(result.status, ExploitStatus::Inconclusive);
    assert_eq!(result.explanation, "Parse error: Failed to parse Python source");
    assert!(result.sinks.is_empty());
    assert_eq!(result.analysis_time_ms, 9);
    assert!(prover.solver_scripts("eval(x\n").is_empty());
}

#[test]
fn repeated_names_are_kept() {
    let source = "eval(a + a)";
    let mut parser = PythonParser::new().unwrap();
    let sinks = parser.find_sinks(source).unwrap();
    assert_eq!(sinks[0].tainted_vars, vec!["a".to_string(), "a".to_string()]);
}

#[test]
fn every_sink_is_fed_by_a_name() {
    let source = "os.system('ls')\neval(x)\ncursor.execute('select 1')\nopen(path)\nopen('a.txt')\n";
    let mut parser = PythonParser::new().unwrap();
    let sinks = parser.find_sinks(source).unwrap();
    assert_eq!(sinks.len(), 2);
    assert!(sinks.iter().all(|s| !s.tainted_vars.is_empty()));
    assert_eq!(sinks[0].sink_type, SinkType::CodeInjection);
    assert_eq!(sinks[1].sink_type, SinkType::PathTraversal);
    assert_eq!(sinks[1].line, 4);
}

#[test]
fn augmented_assignment_command_injection() {
    let source = "cmd = \"ls\"\nuser_input = request.args.get('path')\ncmd += \" \" + user_input\nos.system(cmd)";
    let slicer = slicer_for(source);
    assert!(slicer.is_tainted("cmd"));
    let defs = slicer.definitions();
    let augmented: Vec<_> = defs.iter().filter(|d| d.name == "cmd" && d.line == 3).collect();
    assert_eq!(augmented.len(), 1);
    assert_eq!(augmented[0].value_source, ValueSource::Derived);
    assert_eq!(augmented[0].dependencies, vec!["user_input".to_string(), "cmd".to_string()]);

    let mut prover = ExploitProver::new().unwrap();
    let result = prover.analyze(source, &Vec::new(), 0);
    assert_eq!(result.status, ExploitStatus::Exploitable);
    assert_eq!(result.sinks[0].sink_type, SinkType::CommandInjection);
    let lines: Vec<usize> = result.attack_path.iter().map(|p| p.line).collect();
    assert_eq!(lines, vec![4, 1, 3, 2]);
    assert_eq!(result.attack_path[1].description, "FLOW: Data transformation");
    assert_eq!(result.attack_path[2].description, "FLOW: Variable derivation");
    assert_eq!(result.attack_path[3].description, "ENTRY: User input from request.args");
}

#[test]
fn every_augmented_definition_reads_its_target() {
    let source = "a = 1\na += b\nobj.total -= request.args.get('n')\nx, y *= z\n";
    let slicer = slicer_for(source);
    let augmented: Vec<_> = slicer.definitions().iter().filter(|d| d.line >= 2).collect();
    assert!(!augmented.is_empty());
    for def in augmented {
        assert!(def.dependencies.contains(&def.name), "{} does not read itself", def.name);
    }
    let plain: Vec<_> = slicer.definitions().iter().filter(|d| d.line == 1).collect();
    assert_eq!(plain.len(), 1);
    assert!(plain[0].dependencies.is_empty());
}

#[test]
fn tuple_unpacking_taints_every_target() {
    let source = "data = request.json.get('data')\nx, y, z = data\nos.system(x)";
    let slicer = slicer_for(source);
    assert!(slicer.is_tainted("x"));
    assert!(slicer.is_tainted("y"));
    assert!(slicer.is_tainted("z"));
    let mut parser = PythonParser::new().unwrap();
    let sinks = parser.find_sinks(source).unwrap();
    assert_eq!(sinks.len(), 1);
    assert_eq!(sinks[0].sink_type, SinkType::CommandInjection);
    let mut prover = ExploitProver::new().unwrap();
    assert_eq!(prover.analyze(source, &Vec::new(), 0).status, ExploitStatus::Exploitable);
}

#[test]
fn no_sinks() {
    let source = "def add(a,b):\n    return a+b";
    let mut prover = ExploitProver::new().unwrap();
    let result = prover.analyze(source, &Vec::new(), 0);
    assert!(result.success);
    assert_eq!(result.status, ExploitStatus::NoSinksFound);
    assert!(result.sinks.is_empty());
    assert_eq!(
        result.explanation,
        "No dangerous function calls (sinks) detected in this code."
    );
}

#[test]
fn cycles_end_with_the_same_answer() {
    let slicer = slicer_for("a = b\nb = c\nc = a\n");
    assert!(!slicer.is_tainted("a"));
    assert!(!slicer.is_tainted("a"));
    assert!(!slicer.is_tainted("b"));
    let slicer = slicer_for("a = b\nb = c\nc = a + request.args.get('x')\nd = d\n");
    assert!(slicer.is_tainted("a"));
    assert!(slicer.is_tainted("b"));
    assert!(slicer.is_tainted("c"));
    assert!(!slicer.is_tainted("d"));
    assert!(!slicer.is_tainted("unknown"));
}

#[test]
fn request_and_parameters_are_seeds() {
    let slicer = slicer_for("def f(a, b=1, *args, c: int, d: str = 'x', **kwargs):\n    pass\n");
    assert!(slicer.is_tainted("request"));
    for name in ["a", "b", "args", "c", "d", "kwargs"] {
        assert!(slicer.is_tainted(name), "{} is not tainted", name);
        assert!(slicer.has_definition(name), "{} is not defined", name);
    }
    assert!(!slicer.is_tainted("f"));
    assert_eq!(
        slicer.tainted_names(),
        &vec![
            "request".to_string(),
            "a".to_string(),
            "b".to_string(),
            "args".to_string(),
            "c".to_string(),
            "d".to_string(),
            "kwargs".to_string()
        ]
    );
}

#[test]
fn trace_stands_on_each_definition_once() {
    let source = "a = request.args.get('a')\nb = a + a\nc = b + a\nb = c\nos.system(c)";
    let mut prover = ExploitProver::new().unwrap();
    let result = prover.analyze(source, &Vec::new(), 0);
    let lines: Vec<usize> = result.attack_path.iter().map(|p| p.line).collect();
    assert_eq!(lines, vec![5, 3, 2, 1, 4]);
    let mut sorted = lines.clone();
    sorted.sort();
    sorted.dedup();
    assert_eq!(sorted.len(), lines.len());
}

#[test]
fn untainted_sink_is_safe() {
    let source = "name = \"report\"\npath = name\nopen(path)";
    let mut prover = ExploitProver::new().unwrap();
    let result = prover.analyze(source, &Vec::new(), 0);
    assert_eq!(result.status, ExploitStatus::Safe);
    assert_eq!(result.sinks.len(), 1);
    assert!(result.attack_path.is_empty());
    assert!(result.explanation.starts_with("SAFE: "));
}

#[test]
fn analysis_is_repeatable() {
    let mut prover = ExploitProver::new().unwrap();
    let first = prover.analyze(SQLI, &Vec::new(), 1);
    let second = prover.analyze(SQLI, &Vec::new(), 2);
    assert_eq!(first.status, second.status);
    assert_eq!(first.sinks.len(), second.sinks.len());
    assert_eq!(first.sinks[0].tainted_vars, second.sinks[0].tainted_vars);
    assert_eq!(first.attack_path.len(), second.attack_path.len());
    for (a, b) in first.attack_path.iter().zip(second.attack_path.iter()) {
        assert_eq!((a.line, &a.code, &a.description), (b.line, &b.code, &b.description));
    }
    assert_eq!(first.payload, second.payload);
    assert_eq!(first.explanation, second.explanation);
}

#[test]
fn script_is_a_function_of_the_path() {
    let mut parser = PythonParser::new().unwrap();
    let tree = parser.parse(SQLI).unwrap();
    assert_eq!(scripts_for(&tree, SQLI), scripts_for(&tree, SQLI));
    let generator = ConstraintGenerator::new();
    let mut prover = ExploitProver::new().unwrap();
    let path = prover.analyze(SQLI, &Vec::new(), 0).attack_path;
    let first = generator.generate_smt(&path, "cursor.execute(query)");
    let second = generator.generate_smt(&path, "cursor.execute(query)");
    assert_eq!(first, second);
    assert_eq!(first, SQLI_SCRIPT);
}

#[test]
fn analyze_at_line_keeps_sinks_within_five_lines() {
    let source = "def f(x):\n    eval(x)\n\n\n\n\n\n\n    os.system(x)\n";
    let mut prover = ExploitProver::new().unwrap();
    let near_first = prover.analyze_at_line(source, 7, &Vec::new(), 0);
    assert_eq!(near_first.status, ExploitStatus::Exploitable);
    assert_eq!(near_first.sinks.iter().map(|s| s.line).collect::<Vec<_>>(), vec![2, 9]);
    let near_second = prover.analyze_at_line(source, 8, &Vec::new(), 0);
    assert_eq!(near_second.sinks.iter().map(|s| s.line).collect::<Vec<_>>(), vec![9]);
    let far = prover.analyze_at_line(source, 40, &Vec::new(), 0);
    assert_eq!(far.status, ExploitStatus::NoSinksFound);
    assert!(far.sinks.is_empty());
    assert_eq!(far.explanation, "No dangerous function calls found near line 40.");
}

#[test]
fn cross_file_flow() {
    let files = vec![
        SourceFile {
            path: "/ws/main.py".to_string(),
            source: "from utils import run_query\ndef main(data):\n    run_query(data)".to_string(),
        },
        SourceFile {
            path: "/ws/utils.py".to_string(),
            source: "def run_query(data):\n    cursor.execute(data)".to_string(),
        },
    ];
    let mut slicer = CrossFileSlicer::new("/ws".to_string()).unwrap();
    assert_eq!(slicer.index_workspace(&files), Ok(2));
    let result = slicer.analyze_file("/ws/main.py").unwrap();
    assert_eq!(result.cross_file_flows.len(), 1);
    let flow = &result.cross_file_flows[0];
    assert_eq!(flow.caller_file, "/ws/main.py");
    assert_eq!(flow.caller_line, 3);
    assert_eq!(flow.function_called, "run_query");
    assert_eq!(flow.callee_file, "/ws/utils.py");
    assert_eq!(flow.callee_line, 1);
    assert_eq!(flow.tainted_args, vec!["data".to_string()]);
    assert_eq!(result.attack_path.len(), 2);
    assert_eq!(result.attack_path[0].node_type, "CROSS_FILE_CALL");
    assert_eq!(result.attack_path[0].code, "run_query(...)");
    assert_eq!(result.attack_path[0].file_path, "/ws/main.py");
    assert!(!result.attack_path[0].is_sink);
    assert_eq!(result.attack_path[1].node_type, "SqlInjection");
    assert_eq!(result.attack_path[1].file_path, "/ws/utils.py");
    assert_eq!(result.attack_path[1].line, 2);
    assert_eq!(result.attack_path[1].code, "cursor.execute(data)");
    assert!(result.attack_path[1].is_sink);
    assert!(result.sinks.is_empty());
}

#[test]
fn call_of_input_as_argument_passes_no_tainted_name() {
    let files = vec![
        SourceFile {
            path: "main.py".to_string(),
            source: "from utils import run_query\ndef main():\n    run_query(input())".to_string(),
        },
        SourceFile {
            path: "utils.py".to_string(),
            source: "def run_query(data):\n    cursor.execute(data)".to_string(),
        },
    ];
    let mut slicer = CrossFileSlicer::new("".to_string()).unwrap();
    slicer.index_workspace(&files).unwrap();
    let result = slicer.analyze_file("main.py").unwrap();
    assert!(result.cross_file_flows.is_empty());
    assert!(result.attack_path.is_empty());
}
