use exploit_prover::commands::{
    analyze_cross_file, cross_file_summary, index_workspace, prove_exploitability,
    quick_scan_sinks, sink_info, AnalyzeRequest,
};
use exploit_prover::cross_slicer::{CrossFileAnalysisResult, CrossFileFlow, CrossFilePathNode};
use exploit_prover::indexer::SourceFile;
use exploit_prover::{ExploitStatus, Sink, SinkType};

fn file(path: &str, source: &str) -> SourceFile {
    SourceFile { path: path.to_string(), source: source.to_string() }
}

#[test]
fn quick_scan_sums_up_each_sink() {
    let infos = quick_scan_sinks("import os\ndef f(cmd, q):\n    os.system(cmd)\n    cursor.execute(q)\n").unwrap();
    assert_eq!(infos.len(), 2);
    assert_eq!(infos[0].sink_type, "CommandInjection");
    assert_eq!(infos[0].line, 3);
    assert_eq!(infos[0].column, 4);
    assert_eq!(infos[0].code, "os.system(cmd)");
    assert_eq!(infos[0].description, "Command Injection - User input in shell command");
    assert_eq!(infos[1].sink_type, "SqlInjection");
    assert_eq!(infos[1].line, 4);
}

#[test]
fn sink_info_copies_the_sink() {
    let sink = Sink {
        sink_type: SinkType::Xxe,
        line: 9,
        column: 2,
        code_snippet: "etree.parse(f)".to_string(),
        tainted_vars: vec!["f".to_string()],
    };
    let info = sink_info(&sink);
    assert_eq!(info.sink_type, "Xxe");
    assert_eq!((info.line, info.column), (9, 2));
    assert_eq!(info.code, "etree.parse(f)");
    assert_eq!(info.description, "XML External Entity - User input in XML parser");
}

#[test]
fn a_request_with_a_target_line_is_narrowed() {
    let source = "def f(x):\n    eval(x)\n".to_string();
    let whole = AnalyzeRequest { source: source.clone(), target_line: None, file_path: None };
    let report = prove_exploitability(&whole, &Vec::new(), 5).unwrap();
    assert_eq!(report.status, ExploitStatus::Exploitable);
    assert_eq!(report.analysis_time_ms, 5);

    let near = AnalyzeRequest { source: source.clone(), target_line: Some(7), file_path: None };
    assert_eq!(prove_exploitability(&near, &Vec::new(), 0).unwrap().sinks.len(), 1);

    let far = AnalyzeRequest { source, target_line: Some(8), file_path: Some("a.py".to_string()) };
    let report = prove_exploitability(&far, &Vec::new(), 0).unwrap();
    assert_eq!(report.status, ExploitStatus::NoSinksFound);
    assert_eq!(report.explanation, "No dangerous function calls found near line 8.");
}

#[test]
fn indexing_sums_up_the_symbols() {
    let files = vec![
        file("/ws/a.py", "def one():\n    pass\nclass Two:\n    pass\n"),
        file("/ws/pkg/b.py", "def three():\n    pass\n"),
    ];
    let summary = index_workspace("/ws".to_string(), &files).unwrap();
    assert_eq!(summary.files_indexed, 2);
    assert_eq!(summary.symbols_found, 3);
    let seen: Vec<(&str, &str, &str, usize, &str)> = summary
        .symbols
        .iter()
        .map(|s| (s.name.as_str(), s.kind.as_str(), s.file_path.as_str(), s.line, s.module_name.as_str()))
        .collect();
    assert_eq!(
        seen,
        vec![
            ("one", "Function", "/ws/a.py", 1, "a"),
            ("Two", "Class", "/ws/a.py", 3, "a"),
            ("three", "Function", "/ws/pkg/b.py", 1, "pkg.b"),
        ]
    );
}

#[test]
fn cross_file_analysis_is_summed_up() {
    let files = vec![
        file("/ws/main.py", "from utils import run_query\ndef main(data):\n    run_query(data)"),
        file("/ws/utils.py", "def run_query(data):\n    cursor.execute(data)"),
    ];
    let summary = analyze_cross_file("/ws/main.py", "/ws".to_string(), &files, &Vec::new()).unwrap();
    assert_eq!(summary.sinks_found, 0);
    assert_eq!(summary.cross_file_flows, 1);
    assert_eq!(summary.flows.len(), 1);
    assert_eq!(summary.flows[0].caller_file, "/ws/main.py");
    assert_eq!(summary.flows[0].callee_file, "/ws/utils.py");
    assert_eq!(summary.flows[0].function_called, "run_query");
    assert_eq!(summary.flows[0].tainted_args, vec!["data".to_string()]);
    assert_eq!(summary.attack_path.len(), 2);
    assert!(!summary.attack_path[0].is_sink);
    assert!(summary.attack_path[1].is_sink);
    assert_eq!(summary.attack_path[1].node_type, "SqlInjection");

    let missing = analyze_cross_file("/ws/absent.py", "/ws".to_string(), &files, &Vec::new());
    assert_eq!(missing.err(), Some("File not loaded: /ws/absent.py".to_string()));

    let outside = vec![file("/elsewhere/run.py", "from utils import run_query\ndef go(data):\n    run_query(data)\n    eval(data)\n")];
    let summary =
        analyze_cross_file("/elsewhere/run.py", "/ws".to_string(), &files, &outside).unwrap();
    assert_eq!(summary.sinks_found, 1);
    assert_eq!(summary.cross_file_flows, 1);
    assert_eq!(summary.flows[0].caller_file, "/elsewhere/run.py");
}

#[test]
fn summary_counts_rows_and_flows() {
    let result = CrossFileAnalysisResult {
        sinks: Vec::new(),
        cross_file_flows: vec![CrossFileFlow {
            caller_file: "a.py".to_string(),
            caller_line: 3,
            function_called: "f".to_string(),
            callee_file: "b.py".to_string(),
            callee_line: 1,
            tainted_args: vec!["x".to_string(), "y".to_string()],
        }],
        attack_path: vec![CrossFilePathNode {
            file_path: "a.py".to_string(),
            line: 3,
            code: "f(...)".to_string(),
            node_type: "CROSS_FILE_CALL".to_string(),
            is_entry_point: false,
            is_sink: false,
        }],
    };
    let summary = cross_file_summary(&result);
    assert_eq!(summary.sinks_found, 0);
    assert_eq!(summary.cross_file_flows, 1);
    assert_eq!(summary.flows[0].caller_line, 3);
    assert_eq!(summary.flows[0].callee_line, 1);
    assert_eq!(summary.flows[0].tainted_args, vec!["x".to_string(), "y".to_string()]);
    assert_eq!(summary.attack_path[0].code, "f(...)");
    assert_eq!(summary.attack_path[0].file_path, "a.py");
}
