use exploit_prover::cross_slicer::CrossFileSlicer;
use exploit_prover::indexer::{is_python_file, SourceFile};

fn file(path: &str, source: &str) -> SourceFile {
    SourceFile { path: path.to_string(), source: source.to_string() }
}

#[test]
fn test_cross_file_slicer_creation() {
    let slicer = CrossFileSlicer::new("/tmp".to_string());
    assert!(slicer.is_ok());
}

#[test]
fn test_analyze_workspace_empty() {
    let mut slicer = CrossFileSlicer::new("/tmp/test_cross_empty".to_string()).unwrap();
    let result = slicer.index_workspace(&Vec::new());
    assert!(result.is_ok());
    assert_eq!(result, Ok(0));
}

#[test]
fn test_analyze_file_not_found() {
    let mut slicer = CrossFileSlicer::new("/tmp/test_cross_notfound".to_string()).unwrap();
    let result = slicer.analyze_file("/tmp/test_cross_notfound/nonexistent.py");
    assert!(result.is_err());
    assert_eq!(
        result.err(),
        Some("File not loaded: /tmp/test_cross_notfound/nonexistent.py".to_string())
    );
}

#[test]
fn test_indexer_accessible() {
    let slicer = CrossFileSlicer::new("/tmp/test_cross_resolve".to_string()).unwrap();
    // Indexer should be accessible
    assert!(slicer.indexer().get_all_symbols().is_empty());
}

#[test]
fn test_multiple_files() {
    let files = vec![
        file("/tmp/test_cross_multi/file1.py", "def func1(): pass"),
        file("/tmp/test_cross_multi/file2.py", "def func2(): pass"),
    ];
    let mut slicer = CrossFileSlicer::new("/tmp/test_cross_multi".to_string()).unwrap();
    assert_eq!(slicer.index_workspace(&files), Ok(2));
    let names: Vec<&str> =
        slicer.indexer().get_all_symbols().iter().map(|s| s.name.as_str()).collect();
    assert_eq!(names, vec!["func1", "func2"]);
}

#[test]
fn test_nested_directories() {
    let files = vec![file("/tmp/test_cross_nested/subdir/module.py", "def nested(): pass")];
    let mut slicer = CrossFileSlicer::new("/tmp/test_cross_nested".to_string()).unwrap();
    assert_eq!(slicer.index_workspace(&files), Ok(1));
    let symbols = slicer.indexer().get_all_symbols();
    assert_eq!(symbols.len(), 1);
    assert_eq!(symbols[0].module_name, "subdir.module");
}

#[test]
fn test_analyze_with_sinks() {
    let files = vec![file("/tmp/test_cross_sinks/vuln.py", "def test(x):\n    cursor.execute(x)")];
    let mut slicer = CrossFileSlicer::new("/tmp/test_cross_sinks".to_string()).unwrap();
    slicer.index_workspace(&files).unwrap();
    let result = slicer.analyze_file("/tmp/test_cross_sinks/vuln.py");
    assert!(result.is_ok());
    let result = result.unwrap();
    assert_eq!(result.sinks.len(), 1);
    assert_eq!(result.sinks[0].tainted_vars, vec!["x".to_string(), "x".to_string()]);
    assert!(result.cross_file_flows.is_empty());
    assert_eq!(result.attack_path.len(), 1);
    assert!(result.attack_path[0].is_sink);
    assert!(!result.attack_path[0].is_entry_point);
    assert_eq!(result.attack_path[0].node_type, "SqlInjection");
}

#[test]
fn test_cross_file_flow_detection() {
    let files = vec![
        file(
            "/tmp/test_cross_flow/main.py",
            "from utils import process\ndef main():\n    process(input())",
        ),
        file("/tmp/test_cross_flow/utils.py", "def process(data):\n    cursor.execute(data)"),
    ];
    let mut slicer = CrossFileSlicer::new("/tmp/test_cross_flow".to_string()).unwrap();
    assert_eq!(slicer.index_workspace(&files), Ok(2));
}

#[test]
fn test_indexer_integration() {
    let files = vec![file("/tmp/test_cross_indexer/module.py", "def exported_func():\n    return 'test'")];
    let mut slicer = CrossFileSlicer::new("/tmp/test_cross_indexer".to_string()).unwrap();
    slicer.index_workspace(&files).unwrap();
    let symbol = slicer.indexer().resolve_symbol("/tmp/test_cross_indexer/other.py", "exported_func");
    assert_eq!(symbol.map(|s| s.line), Some(1));
}

fn chain() -> Vec<SourceFile> {
    vec![
        file("a.py", "from b import step_b\ndef step_a(x):\n    step_b(x)\n"),
        file("b.py", "from c import step_c\ndef step_b(x):\n    step_c(x)\n    os.system(x)\n"),
        file("c.py", "from d import step_d\ndef step_c(x):\n    step_d(x)\n    eval(x)\n"),
        file("d.py", "def step_d(x):\n    open(x)\n"),
    ]
}

#[test]
fn calls_are_followed_to_the_bound_and_no_further() {
    let mut slicer = CrossFileSlicer::new("".to_string()).unwrap();
    slicer.index_workspace(&chain()).unwrap();

    let result = slicer.analyze_file("a.py").unwrap();
    let flows: Vec<(&str, &str)> = result
        .cross_file_flows
        .iter()
        .map(|f| (f.caller_file.as_str(), f.callee_file.as_str()))
        .collect();
    assert_eq!(flows, vec![("a.py", "b.py"), ("b.py", "c.py"), ("c.py", "d.py")]);
    assert_eq!(slicer.analyzed_files(), &vec!["a.py", "b.py", "c.py", "d.py"]);
    let kinds: Vec<&str> = result.attack_path.iter().map(|n| n.node_type.as_str()).collect();
    assert_eq!(kinds, vec!["CROSS_FILE_CALL", "CommandInjection"]);

    slicer.set_max_depth(1);
    let result = slicer.analyze_file("a.py").unwrap();
    let flows: Vec<(&str, &str)> = result
        .cross_file_flows
        .iter()
        .map(|f| (f.caller_file.as_str(), f.callee_file.as_str()))
        .collect();
    assert_eq!(flows, vec![("a.py", "b.py"), ("b.py", "c.py")]);
    assert_eq!(slicer.analyzed_files(), &vec!["a.py", "b.py"]);

    slicer.set_max_depth(0);
    let result = slicer.analyze_file("a.py").unwrap();
    assert_eq!(result.cross_file_flows.len(), 1);
    assert_eq!(slicer.analyzed_files(), &vec!["a.py"]);
    let kinds: Vec<&str> = result.attack_path.iter().map(|n| n.node_type.as_str()).collect();
    assert_eq!(kinds, vec!["CROSS_FILE_CALL"]);
}

#[test]
fn a_file_that_calls_back_into_itself_is_analysed_once() {
    let files = vec![
        file("a.py", "from b import fb\ndef fa(x):\n    fb(x)\n"),
        file("b.py", "from a import fa\ndef fb(x):\n    fa(x)\n    os.system(x)\n"),
    ];
    let mut slicer = CrossFileSlicer::new("".to_string()).unwrap();
    slicer.index_workspace(&files).unwrap();
    let result = slicer.analyze_file("a.py").unwrap();
    assert_eq!(slicer.analyzed_files(), &vec!["a.py", "b.py"]);
    let flows: Vec<(&str, &str)> = result
        .cross_file_flows
        .iter()
        .map(|f| (f.caller_file.as_str(), f.callee_file.as_str()))
        .collect();
    assert_eq!(flows, vec![("a.py", "b.py"), ("b.py", "a.py")]);
    let kinds: Vec<&str> = result.attack_path.iter().map(|n| n.node_type.as_str()).collect();
    assert_eq!(kinds, vec!["CROSS_FILE_CALL", "CommandInjection"]);
}

#[test]
fn a_sink_is_reached_only_through_a_shared_name() {
    let files = vec![
        file("a.py", "from b import run\ndef fa(query):\n    run(query)\n"),
        file(
            "b.py",
            "def run(sql_query, value, raw):\n    cursor.execute(sql_query)\n    os.system(value)\n    cursor.execute(raw_query, params)\n",
        ),
    ];
    let mut slicer = CrossFileSlicer::new("".to_string()).unwrap();
    slicer.index_workspace(&files).unwrap();
    let result = slicer.analyze_file("a.py").unwrap();
    let rows: Vec<(&str, usize)> =
        result.attack_path.iter().map(|n| (n.node_type.as_str(), n.line)).collect();
    assert_eq!(rows, vec![("CROSS_FILE_CALL", 3), ("SqlInjection", 2)]);
}

#[test]
fn calls_within_a_file_and_to_classes_are_not_followed() {
    let files = vec![
        file("a.py", "from b import Helper\ndef local(x):\n    eval(x)\ndef fa(x):\n    local(x)\n    Helper(x)\n"),
        file("b.py", "class Helper:\n    pass\n"),
    ];
    let mut slicer = CrossFileSlicer::new("".to_string()).unwrap();
    slicer.index_workspace(&files).unwrap();
    let result = slicer.analyze_file("a.py").unwrap();
    assert!(result.cross_file_flows.is_empty());
    assert_eq!(slicer.analyzed_files(), &vec!["a.py"]);
    assert_eq!(result.sinks.len(), 1);
}

#[test]
fn test_python_files_only() {
    assert!(is_python_file("script.py"));
    assert!(!is_python_file("data.txt"));
    let files = vec![file("/tmp/test_cross_pyonly/script.py", "# Python")];
    let mut slicer = CrossFileSlicer::new("/tmp/test_cross_pyonly".to_string()).unwrap();
    assert_eq!(slicer.index_workspace(&files), Ok(1));
    assert!(slicer.indexer().get_all_symbols().is_empty());
}

#[test]
fn a_file_taken_at_hand_is_analysed_without_being_indexed() {
    let mut slicer = CrossFileSlicer::new("/ws".to_string()).unwrap();
    assert_eq!(slicer.load_file("/elsewhere/run.py", "def run(cmd):\n    os.system(cmd)\n"), Ok(()));
    assert!(slicer.indexer().get_all_symbols().is_empty());
    let result = slicer.analyze_file("/elsewhere/run.py").unwrap();
    assert_eq!(result.sinks.len(), 1);
    assert_eq!(result.sinks[0].tainted_vars, vec!["cmd".to_string(), "cmd".to_string()]);
}

#[test]
fn the_last_file_given_under_a_path_is_the_one_at_hand() {
    let mut slicer = CrossFileSlicer::new("/ws".to_string()).unwrap();
    slicer.load_file("/ws/a.py", "def f(x):\n    eval(x)\n").unwrap();
    slicer.load_file("/ws/a.py", "def f(x):\n    pass\n").unwrap();
    let result = slicer.analyze_file("/ws/a.py").unwrap();
    assert!(result.sinks.is_empty());
}
