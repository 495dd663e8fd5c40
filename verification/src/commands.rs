//! The analyses as a front end asks for them: plain requests in, plain
//! summaries out.

use crate::cross_slicer::{
    analysis, empty_workspace, loaded, not_at_hand, taken, Workspace, CrossFileAnalysisResult, CrossFileAnalysisView,
    CrossFileFlowView, CrossFilePathNodeView, CrossFileSlicer,
};
use crate::indexer::{
    indexed, read_count, read_file, read_files, IndexState, ProjectIndexer, SourceFile, Symbol,
    SymbolKind, SymbolView,
};
use crate::model::{
    copy_names, sink_views, AnalysisResult, AnalysisResultView, Sink, SinkView,
};
use crate::prover::{narrowed, source_report, ExploitProver};
use crate::python_parser::{is_language_failure, parse_failure, sinks_in, PythonParser};
use crate::solver::SolverAnswer;
use crate::syntax::syntax_tree;
use crate::text::{names, views};
use vstd::prelude::*;

verus! {

/// A request to analyse a source.
#[derive(Debug, Clone)]
pub struct AnalyzeRequest {
    /// The source to analyse.
    pub source: String,
    /// The line to narrow the report to, if any.
    pub target_line: Option<usize>,
    /// The path of the source, for reference.
    pub file_path: Option<String>,
}

/// A sink, summed up for display.
#[derive(Debug, Clone)]
pub struct SinkInfo {
    pub sink_type: String,
    pub line: usize,
    pub column: usize,
    pub code: String,
    pub description: String,
}

/// A symbol, summed up for display.
#[derive(Debug, Clone)]
pub struct SymbolInfo {
    pub name: String,
    pub kind: String,
    pub file_path: String,
    pub line: usize,
    pub module_name: String,
}

/// What indexing a workspace came to.
#[derive(Debug, Clone)]
pub struct WorkspaceIndexResult {
    pub files_indexed: usize,
    pub symbols_found: usize,
    pub symbols: Vec<SymbolInfo>,
}

/// A row of a cross-file path, summed up for display.
#[derive(Debug, Clone)]
pub struct CrossFilePathInfo {
    pub file_path: String,
    pub line: usize,
    pub code: String,
    pub node_type: String,
    pub is_sink: bool,
}

/// A cross-file flow, summed up for display.
#[derive(Debug, Clone)]
pub struct CrossFileFlowInfo {
    pub caller_file: String,
    pub caller_line: usize,
    pub callee_file: String,
    pub callee_line: usize,
    pub function_called: String,
    pub tainted_args: Vec<String>,
}

/// A cross-file analysis, summed up for display.
#[derive(Debug, Clone)]
pub struct CrossFileResult {
    pub sinks_found: usize,
    pub cross_file_flows: usize,
    pub attack_path: Vec<CrossFilePathInfo>,
    pub flows: Vec<CrossFileFlowInfo>,
}

/// The name of a kind of symbol.
pub open spec fn kind_text(kind: SymbolKind) -> Seq<char> {
    match kind {
        SymbolKind::Function => "Function"@,
        SymbolKind::Class => "Class"@,
        SymbolKind::Variable => "Variable"@,
    }
}

/// Whether `info` sums up `sink`.
pub open spec fn sums_up_sink(info: SinkInfo, sink: SinkView) -> bool {
    &&& info.sink_type@ == sink.sink_type.name_text()
    &&& info.line == sink.line
    &&& info.column == sink.column
    &&& info.code@ == sink.code_snippet
    &&& info.description@ == sink.sink_type.description_text()
}

/// Whether `infos` sum up `sinks`, each in its place.
pub open spec fn sum_up_sinks(infos: Seq<SinkInfo>, sinks: Seq<SinkView>) -> bool {
    &&& infos.len() == sinks.len()
    &&& forall|i: int| 0 <= i < sinks.len() ==> sums_up_sink(#[trigger] infos[i], sinks[i])
}

/// Whether `info` sums up `symbol`.
pub open spec fn sums_up_symbol(info: SymbolInfo, symbol: SymbolView) -> bool {
    &&& info.name@ == symbol.name
    &&& info.kind@ == kind_text(symbol.kind)
    &&& info.file_path@ == symbol.file_path
    &&& info.line == symbol.line
    &&& info.module_name@ == symbol.module_name
}

/// Whether `summary` sums up an index that holds `symbols`, made of
/// `files_indexed` files.
pub open spec fn sums_up_index(
    summary: WorkspaceIndexResult,
    symbols: Seq<SymbolView>,
    files_indexed: nat,
) -> bool {
    &&& summary.files_indexed == files_indexed
    &&& summary.symbols_found == symbols.len()
    &&& summary.symbols@.len() == symbols.len()
    &&& forall|i: int|
        0 <= i < symbols.len() ==> sums_up_symbol(#[trigger] summary.symbols@[i], symbols[i])
}

/// Whether `info` sums up `node`.
pub open spec fn sums_up_node(info: CrossFilePathInfo, node: CrossFilePathNodeView) -> bool {
    &&& info.file_path@ == node.file_path
    &&& info.line == node.line
    &&& info.code@ == node.code
    &&& info.node_type@ == node.node_type
    &&& info.is_sink == node.is_sink
}

/// Whether `info` sums up `flow`.
pub open spec fn sums_up_flow(info: CrossFileFlowInfo, flow: CrossFileFlowView) -> bool {
    &&& info.caller_file@ == flow.caller_file
    &&& info.caller_line == flow.caller_line
    &&& info.callee_file@ == flow.callee_file
    &&& info.callee_line == flow.callee_line
    &&& info.function_called@ == flow.function_called
    &&& names(info.tainted_args@) == flow.tainted_args
}

/// Whether `summary` sums up `result`: the counts, and each row and each
/// flow in its place.
pub open spec fn sums_up_result(summary: CrossFileResult, result: CrossFileAnalysisView) -> bool {
    &&& summary.sinks_found == result.sinks.len()
    &&& summary.cross_file_flows == result.cross_file_flows.len()
    &&& summary.attack_path@.len() == result.attack_path.len()
    &&& forall|i: int|
        0 <= i < result.attack_path.len() ==> sums_up_node(
            #[trigger] summary.attack_path@[i],
            result.attack_path[i],
        )
    &&& summary.flows@.len() == result.cross_file_flows.len()
    &&& forall|i: int|
        0 <= i < result.cross_file_flows.len() ==> sums_up_flow(
            #[trigger] summary.flows@[i],
            result.cross_file_flows[i],
        )
}

/// The summary of `sink`.
pub fn sink_info(sink: &Sink) -> (r: SinkInfo)
    ensures
        sums_up_sink(r, sink@),
{
    SinkInfo {
        sink_type: sink.sink_type.name().to_owned(),
        line: sink.line,
        column: sink.column,
        code: sink.code_snippet.clone(),
        description: sink.sink_type.description().to_owned(),
    }
}

/// The summaries of `sinks`, in order.
pub fn sink_infos(sinks: &Vec<Sink>) -> (r: Vec<SinkInfo>)
    ensures
        sum_up_sinks(r@, sink_views(sinks@)),
{
    let mut out: Vec<SinkInfo> = Vec::new();
    let mut n: usize = 0;
    while n < sinks.len()
        invariant
            n <= sinks.len(),
            out@.len() == n,
            forall|i: int|
                0 <= i < n ==> sums_up_sink(#[trigger] out@[i], sink_views(sinks@)[i]),
        decreases sinks.len() - n,
    {
        out.push(sink_info(&sinks[n]));
        n += 1;
    }
    out
}

fn kind_name(kind: SymbolKind) -> (r: &'static str)
    ensures
        r@ == kind_text(kind),
{
    match kind {
        SymbolKind::Function => "Function",
        SymbolKind::Class => "Class",
        SymbolKind::Variable => "Variable",
    }
}

/// The summary of `symbol`.
pub fn symbol_info(symbol: &Symbol) -> (r: SymbolInfo)
    ensures
        sums_up_symbol(r, symbol@),
{
    SymbolInfo {
        name: symbol.name.clone(),
        kind: kind_name(symbol.kind).to_owned(),
        file_path: symbol.file_path.clone(),
        line: symbol.line,
        module_name: symbol.module_name.clone(),
    }
}

/// The summary of an index in which `files_indexed` files were indexed.
pub fn index_summary(index: &ProjectIndexer, files_indexed: usize) -> (r: WorkspaceIndexResult)
    ensures
        sums_up_index(r, index.symbols(), files_indexed as nat),
{
    let all = index.get_all_symbols();
    let mut out: Vec<SymbolInfo> = Vec::new();
    let mut n: usize = 0;
    while n < all.len()
        invariant
            n <= all.len(),
            out@.len() == n,
            views(all@) == index.symbols(),
            forall|i: int| 0 <= i < n ==> sums_up_symbol(#[trigger] out@[i], index.symbols()[i]),
        decreases all.len() - n,
    {
        out.push(symbol_info(&all[n]));
        n += 1;
    }
    WorkspaceIndexResult { files_indexed, symbols_found: out.len(), symbols: out }
}

/// The summary of `result`.
pub fn cross_file_summary(result: &CrossFileAnalysisResult) -> (r: CrossFileResult)
    ensures
        sums_up_result(r, result@),
{
    let mut rows: Vec<CrossFilePathInfo> = Vec::new();
    let mut n: usize = 0;
    while n < result.attack_path.len()
        invariant
            n <= result.attack_path.len(),
            rows@.len() == n,
            forall|i: int| 0 <= i < n ==> sums_up_node(#[trigger] rows@[i], result@.attack_path[i]),
        decreases result.attack_path.len() - n,
    {
        let node = &result.attack_path[n];
        rows.push(
            CrossFilePathInfo {
                file_path: node.file_path.clone(),
                line: node.line,
                code: node.code.clone(),
                node_type: node.node_type.clone(),
                is_sink: node.is_sink,
            },
        );
        n += 1;
    }
    let mut flows: Vec<CrossFileFlowInfo> = Vec::new();
    let mut n: usize = 0;
    while n < result.cross_file_flows.len()
        invariant
            n <= result.cross_file_flows.len(),
            flows@.len() == n,
            forall|i: int|
                0 <= i < n ==> sums_up_flow(#[trigger] flows@[i], result@.cross_file_flows[i]),
        decreases result.cross_file_flows.len() - n,
    {
        let flow = &result.cross_file_flows[n];
        flows.push(
            CrossFileFlowInfo {
                caller_file: flow.caller_file.clone(),
                caller_line: flow.caller_line,
                callee_file: flow.callee_file.clone(),
                callee_line: flow.callee_line,
                function_called: flow.function_called.clone(),
                tainted_args: copy_names(&flow.tainted_args),
            },
        );
        n += 1;
    }
    CrossFileResult {
        sinks_found: result.sinks.len(),
        cross_file_flows: result.cross_file_flows.len(),
        attack_path: rows,
        flows,
    }
}

/// The report that `request` asks for: that of its source, narrowed to the
/// target line where the request names one.
pub open spec fn requested(
    request: AnalyzeRequest,
    answers: Seq<SolverAnswer>,
    elapsed_ms: u64,
) -> AnalysisResultView {
    match request.target_line {
        Some(line) => narrowed(source_report(request.source@, answers, elapsed_ms), line),
        None => source_report(request.source@, answers, elapsed_ms),
    }
}

/// The report that `request` asks for, given the answers of the solver and
/// the time taken. It fails where no parser for Python can be made, and says
/// what the parser said.
pub fn prove_exploitability(request: &AnalyzeRequest, answers: &Vec<SolverAnswer>, elapsed_ms: u64) -> (r:
    Result<AnalysisResult, String>)
    ensures
        r matches Ok(report) ==> report@ == requested(*request, answers@, elapsed_ms),
        r matches Err(e) ==> is_language_failure(e@),
{
    let mut prover = match ExploitProver::new() {
        Ok(p) => p,
        Err(e) => {
            return Err(e);
        },
    };
    match request.target_line {
        Some(line) => Ok(
            prover.analyze_at_line(request.source.as_str(), line, answers, elapsed_ms),
        ),
        None => Ok(prover.analyze(request.source.as_str(), answers, elapsed_ms)),
    }
}

/// The sinks of `source`, summed up. It fails where no parser for Python can
/// be made, or the source has no syntax tree.
pub fn quick_scan_sinks(source: &str) -> (r: Result<Vec<SinkInfo>, String>)
    ensures
        r matches Ok(infos) ==> syntax_tree(source@) matches Some(tree) && sum_up_sinks(
            infos@,
            sinks_in(tree),
        ),
        r matches Err(e) ==> is_language_failure(e@) || (syntax_tree(source@) is None && e@
            == parse_failure()),
{
    let mut parser = match PythonParser::new() {
        Ok(p) => p,
        Err(e) => {
            return Err(e);
        },
    };
    match parser.find_sinks(source) {
        Ok(sinks) => Ok(sink_infos(&sinks)),
        Err(e) => Err(e),
    }
}

/// The index with nothing in it.
pub open spec fn empty_index() -> IndexState {
    IndexState { symbols: Seq::empty(), entries: Seq::empty() }
}

/// The summary of the index of `files`, the files of the workspace under
/// `workspace_path`. It fails where no parser for Python can be made, and
/// says what the parser said.
pub fn index_workspace(workspace_path: String, files: &Vec<SourceFile>) -> (r: Result<
    WorkspaceIndexResult,
    String,
>)
    ensures
        r matches Ok(summary) ==> sums_up_index(
            summary,
            indexed(empty_index(), workspace_path@, read_files(files@)).symbols,
            read_count(read_files(files@)),
        ),
        r matches Err(e) ==> is_language_failure(e@),
{
    let mut indexer = match ProjectIndexer::new(workspace_path) {
        Ok(i) => i,
        Err(e) => {
            return Err(e);
        },
    };
    assert(indexer.state() == empty_index());
    match indexer.index_workspace(files) {
        Ok(count) => Ok(index_summary(&indexer, count)),
        Err(e) => Err(e),
    }
}

/// The workspace that the files of a workspace and the files beside it make:
/// the first are indexed and taken at hand, the others are taken at hand
/// only.
pub open spec fn workspace_with(
    root: Seq<char>,
    files: Seq<SourceFile>,
    others: Seq<SourceFile>,
) -> Workspace {
    taken(loaded(empty_workspace(), root, read_files(files)), read_files(others))
}

/// The summary of the cross-file analysis of `file_path` in the workspace
/// under `workspace_path`, whose files are `files`; `others` are files from
/// outside the workspace that are at hand without being indexed. It fails
/// where no parser for Python can be made, or the file analysed is not
/// among those that have a syntax tree.
pub fn analyze_cross_file(
    file_path: &str,
    workspace_path: String,
    files: &Vec<SourceFile>,
    others: &Vec<SourceFile>,
) -> (r: Result<CrossFileResult, String>)
    ensures
        r matches Ok(summary) ==> analysis(
            workspace_with(workspace_path@, files@, others@),
            file_path@,
            0,
            Seq::empty(),
        ).result matches Some(found) && sums_up_result(summary, found),
        r matches Err(e) ==> is_language_failure(e@) || (analysis(
            workspace_with(workspace_path@, files@, others@),
            file_path@,
            0,
            Seq::empty(),
        ).result is None && e@ == not_at_hand(file_path@)),
{
    let mut slicer = match CrossFileSlicer::new(workspace_path) {
        Ok(s) => s,
        Err(e) => {
            return Err(e);
        },
    };
    match slicer.index_workspace(files) {
        Ok(_) => {},
        Err(e) => {
            return Err(e);
        },
    }
    let ghost base = slicer.workspace();
    let ghost all = read_files(others@);
    let mut i: usize = 0;
    while i < others.len()
        invariant
            i <= others.len(),
            all == read_files(others@),
            slicer.workspace() == taken(base, all.take(i as int)),
        decreases others.len() - i,
    {
        proof {
            assert(all.take(i + 1).drop_last() =~= all.take(i as int));
            assert(all.take(i + 1).last() == read_file(
                others@[i as int].path@,
                others@[i as int].source@,
            ));
        }
        match slicer.load_file(others[i].path.as_str(), others[i].source.as_str()) {
            Ok(()) => {},
            Err(_) => {},
        }
        i += 1;
    }
    proof {
        assert(all.take(i as int) =~= all);
    }
    match slicer.analyze_file(file_path) {
        Ok(result) => Ok(cross_file_summary(&result)),
        Err(e) => Err(e),
    }
}

} // verus!
