//! The cross-file engine: taint followed through calls into other files of
//! a workspace, to a bounded depth and through each file once.

use crate::indexer::{
    index_step, read_count, read_file, read_files, resolved_index, FileImportsView, IndexState, ProjectIndexer,
    ReadFile, SourceFile, SymbolKind, SymbolView,
};
use crate::model::{copy_names, sink_views, Sink, SinkView};
use crate::python_parser::{is_language_failure, sinks_in, sinks_of, PythonParser};
use crate::slicer::{
    def_views, definitions_in, seeds_of, BackwardSlicer, DefinitionView, VariableDefinition,
};
use crate::syntax::{syntax_tree, SyntaxNode, SyntaxView};
use crate::taint::{search_taint, tainted};
use crate::text::{
    chars_of, contains, contains_chars, contains_text, is_one_of, join2, lemma_views_add,
    lemma_views_push, names, same_text, views, words, words_of,
};
use vstd::prelude::*;

verus! {

/// Taint that crosses from a call in one file into a function of another.
#[derive(Debug, Clone)]
pub struct CrossFileFlow {
    /// The file of the call.
    pub caller_file: String,
    /// The line of the call, counted from 1.
    pub caller_line: usize,
    /// The callee as it is written at the call.
    pub function_called: String,
    /// The file that defines the callee.
    pub callee_file: String,
    /// The line of that definition, counted from 1.
    pub callee_line: usize,
    /// The tainted names among the arguments of the call.
    pub tainted_args: Vec<String>,
}

/// A flow, as a value of mathematics.
pub struct CrossFileFlowView {
    pub caller_file: Seq<char>,
    pub caller_line: usize,
    pub function_called: Seq<char>,
    pub callee_file: Seq<char>,
    pub callee_line: usize,
    pub tainted_args: Seq<Seq<char>>,
}

impl View for CrossFileFlow {
    type V = CrossFileFlowView;

    open spec fn view(&self) -> CrossFileFlowView {
        CrossFileFlowView {
            caller_file: self.caller_file@,
            caller_line: self.caller_line,
            function_called: self.function_called@,
            callee_file: self.callee_file@,
            callee_line: self.callee_line,
            tainted_args: names(self.tainted_args@),
        }
    }
}

/// One row of an attack path that runs through several files.
#[derive(Debug, Clone)]
pub struct CrossFilePathNode {
    /// The file the row speaks of.
    pub file_path: String,
    /// The line the row speaks of, counted from 1.
    pub line: usize,
    /// The code at that line, or a snippet made up for it.
    pub code: String,
    /// `CROSS_FILE_CALL`, or the name of the kind of a sink.
    pub node_type: String,
    /// Whether the row is where attacker input enters.
    pub is_entry_point: bool,
    /// Whether the row is a sink.
    pub is_sink: bool,
}

/// A row of a cross-file path, as a value of mathematics.
pub struct CrossFilePathNodeView {
    pub file_path: Seq<char>,
    pub line: usize,
    pub code: Seq<char>,
    pub node_type: Seq<char>,
    pub is_entry_point: bool,
    pub is_sink: bool,
}

impl View for CrossFilePathNode {
    type V = CrossFilePathNodeView;

    open spec fn view(&self) -> CrossFilePathNodeView {
        CrossFilePathNodeView {
            file_path: self.file_path@,
            line: self.line,
            code: self.code@,
            node_type: self.node_type@,
            is_entry_point: self.is_entry_point,
            is_sink: self.is_sink,
        }
    }
}

/// What the analysis of a file across the workspace finds.
#[derive(Debug, Clone)]
pub struct CrossFileAnalysisResult {
    /// The sinks of the file itself.
    pub sinks: Vec<Sink>,
    /// The flows out of the file, and out of the files they lead into.
    pub cross_file_flows: Vec<CrossFileFlow>,
    /// The calls that carry taint out of the file, each followed by the
    /// sinks it reaches, and then the sinks of the file itself.
    pub attack_path: Vec<CrossFilePathNode>,
}

/// A cross-file result, as a value of mathematics.
pub struct CrossFileAnalysisView {
    pub sinks: Seq<SinkView>,
    pub cross_file_flows: Seq<CrossFileFlowView>,
    pub attack_path: Seq<CrossFilePathNodeView>,
}

impl View for CrossFileAnalysisResult {
    type V = CrossFileAnalysisView;

    open spec fn view(&self) -> CrossFileAnalysisView {
        CrossFileAnalysisView {
            sinks: sink_views(self.sinks@),
            cross_file_flows: views(self.cross_file_flows@),
            attack_path: views(self.attack_path@),
        }
    }
}

/// A file with its text and its syntax tree.
pub struct ParsedFile {
    pub path: String,
    pub source: String,
    pub tree: SyntaxNode,
}

/// A parsed file, as a value of mathematics.
pub struct FileView {
    pub path: Seq<char>,
    pub source: Seq<char>,
    pub tree: SyntaxView,
}

impl View for ParsedFile {
    type V = FileView;

    open spec fn view(&self) -> FileView {
        FileView { path: self.path@, source: self.source@, tree: self.tree@ }
    }
}

/// The file `path`, with the text `source` and the syntax tree `tree`.
pub open spec fn file_view(path: Seq<char>, source: Seq<char>, tree: SyntaxView) -> FileView {
    FileView { path, source, tree }
}

/// A call, with the identifiers among its arguments.
pub struct FunctionCall {
    pub name: String,
    pub line: usize,
    pub args: Vec<String>,
}

/// A call, as a value of mathematics.
pub struct CallView {
    pub name: Seq<char>,
    pub line: usize,
    pub args: Seq<Seq<char>>,
}

impl View for FunctionCall {
    type V = CallView;

    open spec fn view(&self) -> CallView {
        CallView { name: self.name@, line: self.line, args: names(self.args@) }
    }
}

/// What the engine works on: the files at hand, the index, and the bound on
/// the depth of calls followed.
pub struct Workspace {
    pub files: Seq<FileView>,
    pub symbols: Seq<SymbolView>,
    pub entries: Seq<FileImportsView>,
    pub max_depth: usize,
}

/// The identifiers of the tree under `node`, in source order: the text of
/// each identifier, and nothing of what is no identifier itself.
pub open spec fn plain_identifiers(node: SyntaxView) -> Seq<Seq<char>>
    decreases node, 1int,
{
    if node.kind == "identifier"@ {
        seq![node.text]
    } else {
        plain_identifiers_all(node.children)
    }
}

/// The identifiers of the trees under `nodes`, tree after tree.
pub open spec fn plain_identifiers_all(nodes: Seq<SyntaxView>) -> Seq<Seq<char>>
    decreases nodes, 0int,
{
    if nodes.len() == 0 {
        Seq::empty()
    } else {
        plain_identifiers_all(nodes.drop_last()) + plain_identifiers(nodes.last())
    }
}

/// The identifiers among the arguments of the call `node`.
pub open spec fn call_args(node: SyntaxView) -> Seq<Seq<char>> {
    match node.field_child("arguments"@) {
        Some(arguments) => plain_identifiers_all(arguments.children),
        None => Seq::empty(),
    }
}

/// The call that `node` itself is, as a sequence of one or none.
pub open spec fn call_here(node: SyntaxView) -> Seq<CallView> {
    if node.kind == "call"@ {
        match node.field_child("function"@) {
            Some(function) => seq![
                CallView { name: function.text, line: node.line, args: call_args(node) },
            ],
            None => Seq::empty(),
        }
    } else {
        Seq::empty()
    }
}

/// The calls of the tree under `node`, a call before those inside it, in
/// source order.
pub open spec fn calls_in(node: SyntaxView) -> Seq<CallView>
    decreases node, 1int,
{
    call_here(node) + calls_in_all(node.children)
}

/// The calls of the trees under `nodes`, tree after tree.
pub open spec fn calls_in_all(nodes: Seq<SyntaxView>) -> Seq<CallView>
    decreases nodes, 0int,
{
    if nodes.len() == 0 {
        Seq::empty()
    } else {
        calls_in_all(nodes.drop_last()) + calls_in(nodes.last())
    }
}

/// Those of the first `n` of `list` that are tainted, in order.
pub open spec fn tainted_among(
    defs: Seq<DefinitionView>,
    seeds: Seq<Seq<char>>,
    list: Seq<Seq<char>>,
    n: int,
) -> Seq<Seq<char>>
    decreases n,
{
    if n <= 0 {
        Seq::empty()
    } else if tainted(defs, seeds, list[n - 1]) {
        tainted_among(defs, seeds, list, n - 1).push(list[n - 1])
    } else {
        tainted_among(defs, seeds, list, n - 1)
    }
}

/// Those of `list` that are tainted in a file whose definitions are `defs`.
pub open spec fn tainted_of(defs: Seq<DefinitionView>, list: Seq<Seq<char>>) -> Seq<Seq<char>> {
    tainted_among(defs, seeds_of(defs), list, list.len() as int)
}

/// `sink` with, behind the names that feed it, every word of its text that
/// is tainted.
pub open spec fn enriched(defs: Seq<DefinitionView>, sink: SinkView) -> SinkView {
    SinkView {
        sink_type: sink.sink_type,
        line: sink.line,
        column: sink.column,
        code_snippet: sink.code_snippet,
        tainted_vars: sink.tainted_vars + tainted_of(defs, words_of(sink.code_snippet)),
    }
}

/// The first `n` of `sinks`, each enriched.
pub open spec fn enriched_among(defs: Seq<DefinitionView>, sinks: Seq<SinkView>, n: int) -> Seq<
    SinkView,
>
    decreases n,
{
    if n <= 0 {
        Seq::empty()
    } else {
        enriched_among(defs, sinks, n - 1).push(enriched(defs, sinks[n - 1]))
    }
}

/// The sinks of `tree`, each enriched.
pub open spec fn file_sinks(tree: SyntaxView) -> Seq<SinkView> {
    enriched_among(definitions_in(tree), sinks_in(tree), sinks_in(tree).len() as int)
}

/// The row for the sink `sink` of `file`.
pub open spec fn sink_node(file: Seq<char>, sink: SinkView) -> CrossFilePathNodeView {
    CrossFilePathNodeView {
        file_path: file,
        line: sink.line,
        code: sink.code_snippet,
        node_type: sink.sink_type.name_text(),
        is_entry_point: false,
        is_sink: true,
    }
}

/// The rows for the first `n` of `sinks`.
pub open spec fn sink_nodes(file: Seq<char>, sinks: Seq<SinkView>, n: int) -> Seq<
    CrossFilePathNodeView,
>
    decreases n,
{
    if n <= 0 {
        Seq::empty()
    } else {
        sink_nodes(file, sinks, n - 1).push(sink_node(file, sinks[n - 1]))
    }
}

/// Argument `i` and name `j` share a name: one holds the other.
pub open spec fn shares_at(args: Seq<Seq<char>>, vars: Seq<Seq<char>>, i: int, j: int) -> bool {
    0 <= i < args.len() && 0 <= j < vars.len() && (contains_text(vars[j], args[i]) || contains_text(
        args[i],
        vars[j],
    ))
}

/// Some argument and some name share a name.
pub open spec fn shares_name(args: Seq<Seq<char>>, vars: Seq<Seq<char>>) -> bool {
    exists|i: int, j: int| shares_at(args, vars, i, j)
}

/// Whether the call `snippet` looks like a parameterized query.
pub open spec fn looks_parameterized(snippet: Seq<char>) -> bool {
    contains_text(snippet, ", params"@) || contains_text(snippet, ", ("@) || contains_text(
        snippet,
        "?"@,
    )
}

/// Whether the taint of `args` reaches `sink`: a name that feeds the sink
/// shares a name with an argument, and the sink does not look parameterized.
pub open spec fn reaches_sink(args: Seq<Seq<char>>, sink: SinkView) -> bool {
    shares_name(args, sink.tainted_vars) && !looks_parameterized(sink.code_snippet)
}

/// The rows for those of the first `n` of `sinks` that `args` reach.
pub open spec fn reached_nodes(
    file: Seq<char>,
    sinks: Seq<SinkView>,
    args: Seq<Seq<char>>,
    n: int,
) -> Seq<CrossFilePathNodeView>
    decreases n,
{
    if n <= 0 {
        Seq::empty()
    } else if reaches_sink(args, sinks[n - 1]) {
        reached_nodes(file, sinks, args, n - 1).push(sink_node(file, sinks[n - 1]))
    } else {
        reached_nodes(file, sinks, args, n - 1)
    }
}

/// The row for a call that carries taint into another file.
pub open spec fn call_node(file: Seq<char>, call: CallView) -> CrossFilePathNodeView {
    CrossFilePathNodeView {
        file_path: file,
        line: call.line,
        code: call.name + "(...)"@,
        node_type: "CROSS_FILE_CALL"@,
        is_entry_point: false,
        is_sink: false,
    }
}

/// The function of another file that `name`, used in `file`, stands for.
pub open spec fn cross_target(ws: Workspace, file: Seq<char>, name: Seq<char>) -> Option<
    SymbolView,
> {
    match resolved_index(ws.symbols, ws.entries, file, name) {
        Some(i) => if 0 <= i < ws.symbols.len() && ws.symbols[i].file_path != file
            && ws.symbols[i].kind == SymbolKind::Function {
            Some(ws.symbols[i])
        } else {
            None
        },
        None => None,
    }
}

/// The index just behind the last file `path` before `j`, or 0.
pub open spec fn file_cut(files: Seq<FileView>, path: Seq<char>, j: int) -> int
    decreases j,
{
    if j <= 0 || j > files.len() {
        0
    } else if files[j - 1].path == path {
        j
    } else {
        file_cut(files, path, j - 1)
    }
}

/// The file at hand under `path`: the last one given under it.
pub open spec fn file_named(files: Seq<FileView>, path: Seq<char>) -> Option<FileView> {
    let j = file_cut(files, path, files.len() as int);
    if 0 < j <= files.len() {
        Some(files[j - 1])
    } else {
        None
    }
}

/// The flows and rows gathered while the calls of a file are followed, and
/// the files analysed so far.
pub struct Progress {
    pub flows: Seq<CrossFileFlowView>,
    pub path: Seq<CrossFilePathNodeView>,
    pub visited: Seq<Seq<char>>,
}

/// What the analysis of a file comes to: its result, or none where the file
/// is not at hand; and the files analysed so far.
pub struct Outcome {
    pub result: Option<CrossFileAnalysisView>,
    pub visited: Seq<Seq<char>>,
}

/// The result with nothing in it.
pub open spec fn nothing() -> CrossFileAnalysisView {
    CrossFileAnalysisView {
        sinks: Seq::empty(),
        cross_file_flows: Seq::empty(),
        attack_path: Seq::empty(),
    }
}

/// The flow of the taint of `args` through `call` of `file` into `target`.
pub open spec fn flow_of(
    file: Seq<char>,
    call: CallView,
    target: SymbolView,
    args: Seq<Seq<char>>,
) -> CrossFileFlowView {
    CrossFileFlowView {
        caller_file: file,
        caller_line: call.line,
        function_called: call.name,
        callee_file: target.file_path,
        callee_line: target.line,
        tainted_args: args,
    }
}

/// The progress after a call that carries the taint of `args` into
/// `target`, whose file's analysis came to `sub`: the flow, and the flows
/// found further on; the row of the call, and the rows of the sinks of the
/// target's file that the taint reaches.
pub open spec fn after_call(
    file: Seq<char>,
    call: CallView,
    target: SymbolView,
    args: Seq<Seq<char>>,
    sub: Outcome,
    p: Progress,
) -> Progress {
    match sub.result {
        Some(found) => Progress {
            flows: p.flows.push(flow_of(file, call, target, args)) + found.cross_file_flows,
            path: p.path.push(call_node(file, call)) + reached_nodes(
                target.file_path,
                found.sinks,
                args,
                found.sinks.len() as int,
            ),
            visited: sub.visited,
        },
        None => Progress {
            flows: p.flows.push(flow_of(file, call, target, args)),
            path: p.path.push(call_node(file, call)),
            visited: sub.visited,
        },
    }
}

/// The analysis of `file` at `depth`, the files of `visited` having been
/// analysed: beyond the bound on the depth, and for a file analysed before,
/// it finds nothing; else the file is marked, and its calls are followed.
pub open spec fn analysis(ws: Workspace, file: Seq<char>, depth: nat, visited: Seq<Seq<char>>) -> Outcome
    decreases ws.max_depth + 1 - depth, 1int, 0int,
{
    if depth > ws.max_depth || visited.contains(file) {
        Outcome { result: Some(nothing()), visited }
    } else {
        let marked = visited.push(file);
        match file_named(ws.files, file) {
            None => Outcome { result: None, visited: marked },
            Some(at_hand) => {
                let defs = definitions_in(at_hand.tree);
                let sinks = file_sinks(at_hand.tree);
                let p = follow_calls(
                    ws,
                    file,
                    defs,
                    calls_in(at_hand.tree),
                    0,
                    depth,
                    Progress { flows: Seq::empty(), path: Seq::empty(), visited: marked },
                );
                Outcome {
                    result: Some(
                        CrossFileAnalysisView {
                            sinks,
                            cross_file_flows: p.flows,
                            attack_path: p.path + sink_nodes(file, sinks, sinks.len() as int),
                        },
                    ),
                    visited: p.visited,
                }
            },
        }
    }
}

/// The progress after the calls of `file` from the `i`-th on: a call whose
/// callee is a function of another file, and that passes tainted names, is
/// followed into that file, one level deeper.
pub open spec fn follow_calls(
    ws: Workspace,
    file: Seq<char>,
    defs: Seq<DefinitionView>,
    calls: Seq<CallView>,
    i: int,
    depth: nat,
    p: Progress,
) -> Progress
    decreases ws.max_depth + 1 - depth, 0int, calls.len() - i,
{
    if i < 0 || i >= calls.len() || depth > ws.max_depth {
        p
    } else {
        let args = tainted_of(defs, calls[i].args);
        match cross_target(ws, file, calls[i].name) {
            Some(target) => if args.len() > 0 {
                follow_calls(
                    ws,
                    file,
                    defs,
                    calls,
                    i + 1,
                    depth,
                    after_call(
                        file,
                        calls[i],
                        target,
                        args,
                        analysis(ws, target.file_path, depth + 1, p.visited),
                        p,
                    ),
                )
            } else {
                follow_calls(ws, file, defs, calls, i + 1, depth, p)
            },
            None => follow_calls(ws, file, defs, calls, i + 1, depth, p),
        }
    }
}

/// The workspace after `file`: where the parser gave a tree, the file is
/// indexed and taken at hand; else nothing changes.
pub open spec fn load_step(ws: Workspace, root: Seq<char>, file: ReadFile) -> Workspace {
    match file.tree {
        Some(tree) => {
            let index = index_step(
                IndexState { symbols: ws.symbols, entries: ws.entries },
                root,
                file,
            );
            Workspace {
                files: ws.files.push(file_view(file.path, file.source, tree)),
                symbols: index.symbols,
                entries: index.entries,
                max_depth: ws.max_depth,
            }
        },
        None => ws,
    }
}

/// The workspace after the files `read`, one after the other.
pub open spec fn loaded(ws: Workspace, root: Seq<char>, read: Seq<ReadFile>) -> Workspace
    decreases read.len(),
{
    if read.len() == 0 {
        ws
    } else {
        load_step(loaded(ws, root, read.drop_last()), root, read.last())
    }
}

/// The workspace after `file` is taken at hand without being indexed; where
/// the file has no syntax tree, nothing changes.
pub open spec fn take_step(ws: Workspace, file: ReadFile) -> Workspace {
    match file.tree {
        Some(tree) => Workspace {
            files: ws.files.push(file_view(file.path, file.source, tree)),
            symbols: ws.symbols,
            entries: ws.entries,
            max_depth: ws.max_depth,
        },
        None => ws,
    }
}

/// The workspace after the files `read` are taken at hand, one after the
/// other, without being indexed.
pub open spec fn taken(ws: Workspace, read: Seq<ReadFile>) -> Workspace
    decreases read.len(),
{
    if read.len() == 0 {
        ws
    } else {
        take_step(taken(ws, read.drop_last()), read.last())
    }
}

/// The workspace with nothing in it, and calls followed three levels deep.
pub open spec fn empty_workspace() -> Workspace {
    Workspace { files: Seq::empty(), symbols: Seq::empty(), entries: Seq::empty(), max_depth: 3 }
}

/// Beyond the bound on the depth nothing is found, and no file is marked.
pub proof fn lemma_nothing_beyond_the_bound(
    ws: Workspace,
    file: Seq<char>,
    depth: nat,
    visited: Seq<Seq<char>>,
)
    requires
        depth > ws.max_depth,
    ensures
        analysis(ws, file, depth, visited).result == Some(nothing()),
        analysis(ws, file, depth, visited).visited == visited,
{
}

/// A file analysed before gives nothing when it is met again.
pub proof fn lemma_second_visit_finds_nothing(
    ws: Workspace,
    file: Seq<char>,
    depth: nat,
    visited: Seq<Seq<char>>,
)
    requires
        visited.contains(file),
    ensures
        analysis(ws, file, depth, visited).result == Some(nothing()),
        analysis(ws, file, depth, visited).visited == visited,
{
}

/// No file is analysed twice: where no file is marked twice before an
/// analysis, none is after it, whatever calls lead back.
pub proof fn lemma_each_file_once(ws: Workspace, file: Seq<char>, depth: nat, visited: Seq<Seq<char>>)
    requires
        visited.no_duplicates(),
    ensures
        analysis(ws, file, depth, visited).visited.no_duplicates(),
    decreases ws.max_depth + 1 - depth, 1int, 0int,
{
    if depth > ws.max_depth || visited.contains(file) {
    } else {
        let marked = visited.push(file);
        match file_named(ws.files, file) {
            None => {},
            Some(at_hand) => {
                lemma_calls_mark_each_file_once(
                    ws,
                    file,
                    definitions_in(at_hand.tree),
                    calls_in(at_hand.tree),
                    0,
                    depth,
                    Progress { flows: Seq::empty(), path: Seq::empty(), visited: marked },
                );
            },
        }
    }
}

/// Following calls marks no file twice.
pub proof fn lemma_calls_mark_each_file_once(
    ws: Workspace,
    file: Seq<char>,
    defs: Seq<DefinitionView>,
    calls: Seq<CallView>,
    i: int,
    depth: nat,
    p: Progress,
)
    requires
        p.visited.no_duplicates(),
    ensures
        follow_calls(ws, file, defs, calls, i, depth, p).visited.no_duplicates(),
    decreases ws.max_depth + 1 - depth, 0int, calls.len() - i,
{
    if i < 0 || i >= calls.len() || depth > ws.max_depth {
    } else {
        let args = tainted_of(defs, calls[i].args);
        match cross_target(ws, file, calls[i].name) {
            Some(target) => if args.len() > 0 {
                lemma_each_file_once(ws, target.file_path, depth + 1, p.visited);
                lemma_calls_mark_each_file_once(
                    ws,
                    file,
                    defs,
                    calls,
                    i + 1,
                    depth,
                    after_call(
                        file,
                        calls[i],
                        target,
                        args,
                        analysis(ws, target.file_path, depth + 1, p.visited),
                        p,
                    ),
                );
            } else {
                lemma_calls_mark_each_file_once(ws, file, defs, calls, i + 1, depth, p);
            },
            None => {
                lemma_calls_mark_each_file_once(ws, file, defs, calls, i + 1, depth, p);
            },
        }
    }
}

proof fn lemma_plain_identifiers_all_next(nodes: Seq<SyntaxView>, i: int)
    requires
        0 <= i < nodes.len(),
    ensures
        plain_identifiers_all(nodes.take(i + 1)) == plain_identifiers_all(nodes.take(i))
            + plain_identifiers(nodes[i]),
{
    assert(nodes.take(i + 1).drop_last() =~= nodes.take(i));
}

proof fn lemma_calls_in_all_next(nodes: Seq<SyntaxView>, i: int)
    requires
        0 <= i < nodes.len(),
    ensures
        calls_in_all(nodes.take(i + 1)) == calls_in_all(nodes.take(i)) + calls_in(nodes[i]),
{
    assert(nodes.take(i + 1).drop_last() =~= nodes.take(i));
}

/// Appends to `identifiers` the identifiers of the tree under `node`.
pub fn extract_identifiers_from_node(node: &SyntaxNode, identifiers: &mut Vec<String>)
    ensures
        names(final(identifiers)@) == names(old(identifiers)@) + plain_identifiers(node@),
    decreases *node,
{
    if node.is_kind("identifier") {
        identifiers.push(node.text.clone());
    } else {
        let mut i: usize = 0;
        while i < node.children.len()
            invariant
                i <= node.children.len(),
                names(identifiers@) == names(old(identifiers)@) + plain_identifiers_all(
                    node@.children.take(i as int),
                ),
            decreases node.children.len() - i,
        {
            proof {
                lemma_plain_identifiers_all_next(node@.children, i as int);
            }
            extract_identifiers_from_node(&node.children[i], identifiers);
            i += 1;
        }
        assert(node@.children.take(i as int) =~= node@.children);
    }
}

fn arguments_of(node: &SyntaxNode) -> (r: Vec<String>)
    ensures
        names(r@) == call_args(node@),
{
    let mut args: Vec<String> = Vec::new();
    match node.child_by_field("arguments") {
        Some(arguments) => {
            let mut i: usize = 0;
            while i < arguments.children.len()
                invariant
                    i <= arguments.children.len(),
                    names(args@) == plain_identifiers_all(arguments@.children.take(i as int)),
                decreases arguments.children.len() - i,
            {
                proof {
                    lemma_plain_identifiers_all_next(arguments@.children, i as int);
                }
                extract_identifiers_from_node(&arguments.children[i], &mut args);
                i += 1;
            }
            assert(arguments@.children.take(i as int) =~= arguments@.children);
        },
        None => {
        },
    }
    args
}

/// Appends to `calls` the calls of the tree under `node`.
pub fn find_function_calls(node: &SyntaxNode, calls: &mut Vec<FunctionCall>)
    ensures
        views(final(calls)@) == views(old(calls)@) + calls_in(node@),
    decreases *node,
{
    if node.is_kind("call") {
        match node.child_by_field("function") {
            Some(function) => {
                let call = FunctionCall {
                    name: function.text.clone(),
                    line: node.line,
                    args: arguments_of(node),
                };
                calls.push(call);
            },
            None => {},
        }
    }
    let ghost start = views(calls@);
    let mut i: usize = 0;
    while i < node.children.len()
        invariant
            i <= node.children.len(),
            views(calls@) == start + calls_in_all(node@.children.take(i as int)),
        decreases node.children.len() - i,
    {
        proof {
            lemma_calls_in_all_next(node@.children, i as int);
        }
        find_function_calls(&node.children[i], calls);
        i += 1;
    }
    proof {
        assert(node@.children.take(i as int) =~= node@.children);
    }
}

/// Appends to `out` those of `list` that are tainted.
fn push_tainted(
    defs: &Vec<VariableDefinition>,
    seeds: &Vec<String>,
    list: &Vec<String>,
    out: &mut Vec<String>,
)
    ensures
        names(final(out)@) == names(old(out)@) + tainted_among(
            def_views(defs@),
            names(seeds@),
            names(list@),
            list.len() as int,
        ),
{
    let ghost dv = def_views(defs@);
    let ghost sv = names(seeds@);
    let mut n: usize = 0;
    while n < list.len()
        invariant
            n <= list.len(),
            dv == def_views(defs@),
            sv == names(seeds@),
            names(out@) == names(old(out)@) + tainted_among(dv, sv, names(list@), n as int),
        decreases list.len() - n,
    {
        if search_taint(defs, seeds, list[n].as_str()) {
            let name = list[n].clone();
            proof {
                lemma_views_push(out@, name);
            }
            out.push(name);
        }
        n += 1;
    }
}

/// `sink` with every tainted word of its text behind the names that feed it.
fn enrich(defs: &Vec<VariableDefinition>, seeds: &Vec<String>, sink: &Sink) -> (r: Sink)
    requires
        names(seeds@) == seeds_of(def_views(defs@)),
    ensures
        r@ == enriched(def_views(defs@), sink@),
{
    let tokens = words(sink.code_snippet.as_str());
    let mut vars = copy_names(&sink.tainted_vars);
    push_tainted(defs, seeds, &tokens, &mut vars);
    Sink {
        sink_type: sink.sink_type,
        line: sink.line,
        column: sink.column,
        code_snippet: sink.code_snippet.clone(),
        tainted_vars: vars,
    }
}

fn shares(args: &Vec<String>, vars: &Vec<String>) -> (r: bool)
    ensures
        r == shares_name(names(args@), names(vars@)),
{
    let ghost a = names(args@);
    let ghost v = names(vars@);
    let mut i: usize = 0;
    while i < args.len()
        invariant
            i <= args.len(),
            a == names(args@),
            v == names(vars@),
            forall|x: int, y: int| 0 <= x < i ==> !shares_at(a, v, x, y),
        decreases args.len() - i,
    {
        let arg = chars_of(args[i].as_str());
        let mut j: usize = 0;
        while j < vars.len()
            invariant
                j <= vars.len(),
                i < args.len(),
                a == names(args@),
                v == names(vars@),
                a[i as int] == arg@,
                forall|y: int| 0 <= y < j ==> !shares_at(a, v, i as int, y),
            decreases vars.len() - j,
        {
            let var = chars_of(vars[j].as_str());
            if contains_chars(&var, &arg) || contains_chars(&arg, &var) {
                assert(shares_at(a, v, i as int, j as int));
                return true;
            }
            j += 1;
        }
        i += 1;
    }
    false
}

fn is_parameterized(snippet: &str) -> (r: bool)
    ensures
        r == looks_parameterized(snippet@),
{
    contains(snippet, ", params") || contains(snippet, ", (") || contains(snippet, "?")
}

fn node_of_sink(file: &str, sink: &Sink) -> (r: CrossFilePathNode)
    ensures
        r@ == sink_node(file@, sink@),
{
    CrossFilePathNode {
        file_path: file.to_owned(),
        line: sink.line,
        code: sink.code_snippet.clone(),
        node_type: sink.sink_type.name().to_owned(),
        is_entry_point: false,
        is_sink: true,
    }
}

fn push_sink_nodes(file: &str, sinks: &Vec<Sink>, path: &mut Vec<CrossFilePathNode>)
    ensures
        views(final(path)@) == views(old(path)@) + sink_nodes(
            file@,
            sink_views(sinks@),
            sinks.len() as int,
        ),
{
    let mut n: usize = 0;
    while n < sinks.len()
        invariant
            n <= sinks.len(),
            views(path@) == views(old(path)@) + sink_nodes(file@, sink_views(sinks@), n as int),
        decreases sinks.len() - n,
    {
        let node = node_of_sink(file, &sinks[n]);
        proof {
            lemma_views_push(path@, node);
        }
        path.push(node);
        n += 1;
    }
}

fn push_reached_nodes(
    file: &str,
    sinks: &Vec<Sink>,
    args: &Vec<String>,
    path: &mut Vec<CrossFilePathNode>,
)
    ensures
        views(final(path)@) == views(old(path)@) + reached_nodes(
            file@,
            sink_views(sinks@),
            names(args@),
            sinks.len() as int,
        ),
{
    let mut n: usize = 0;
    while n < sinks.len()
        invariant
            n <= sinks.len(),
            views(path@) == views(old(path)@) + reached_nodes(
                file@,
                sink_views(sinks@),
                names(args@),
                n as int,
            ),
        decreases sinks.len() - n,
    {
        if shares(args, &sinks[n].tainted_vars) && !is_parameterized(
            sinks[n].code_snippet.as_str(),
        ) {
            let node = node_of_sink(file, &sinks[n]);
            proof {
                lemma_views_push(path@, node);
            }
            path.push(node);
        }
        n += 1;
    }
}

fn find_file<'a>(files: &'a Vec<ParsedFile>, path: &str) -> (r: Option<&'a ParsedFile>)
    ensures
        match r {
            Some(file) => file_named(views(files@), path@) == Some(file@),
            None => file_named(views(files@), path@) is None,
        },
{
    let mut j: usize = files.len();
    while j > 0
        invariant
            j <= files.len(),
            file_cut(views(files@), path@, files.len() as int) == file_cut(
                views(files@),
                path@,
                j as int,
            ),
        decreases j,
    {
        if same_text(files[j - 1].path.as_str(), path) {
            return Some(&files[j - 1]);
        }
        j -= 1;
    }
    None
}

/// The workspace that an index, the files at hand and a bound stand for.
pub open spec fn workspace_of(index: ProjectIndexer, files: Seq<ParsedFile>, max_depth: usize) -> Workspace {
    Workspace {
        files: views(files),
        symbols: index.symbols(),
        entries: index.entries(),
        max_depth,
    }
}

/// The function of another file that `name`, used in `file`, stands for: its
/// file and its line.
fn resolve_target(index: &ProjectIndexer, file: &str, name: &str) -> (r: Option<(String, usize)>)
    ensures
        match r {
            Some(found) => exists|target: SymbolView|
                #![trigger target.file_path]
                {
                    &&& resolved_index(index.symbols(), index.entries(), file@, name@) matches Some(
                        i,
                    )
                    &&& 0 <= i < index.symbols().len()
                    &&& index.symbols()[i] == target
                    &&& target.file_path != file@
                    &&& target.kind == SymbolKind::Function
                    &&& target.file_path == found.0@
                    &&& target.line == found.1
                },
            None => match resolved_index(index.symbols(), index.entries(), file@, name@) {
                Some(i) => !(0 <= i < index.symbols().len() && index.symbols()[i].file_path
                    != file@ && index.symbols()[i].kind == SymbolKind::Function),
                None => true,
            },
        },
{
    match index.resolve_symbol(file, name) {
        Some(symbol) => {
            if !same_text(symbol.file_path.as_str(), file) && symbol.kind == SymbolKind::Function {
                let found = (symbol.file_path.clone(), symbol.line);
                assert(symbol@.file_path == found.0@);
                Some(found)
            } else {
                None
            }
        },
        None => None,
    }
}

/// The message for a file that is not at hand.
pub open spec fn not_at_hand(file: Seq<char>) -> Seq<char> {
    "File not loaded: "@ + file
}

/// The analysis of `file_path` at `depth`: see `analysis`.
pub fn analyze_file_internal(
    index: &ProjectIndexer,
    files: &Vec<ParsedFile>,
    max_depth: usize,
    file_path: &str,
    depth: usize,
    analyzed: &mut Vec<String>,
) -> (r: Result<CrossFileAnalysisResult, String>)
    ensures
        names(final(analyzed)@) == analysis(
            workspace_of(*index, files@, max_depth),
            file_path@,
            depth as nat,
            names(old(analyzed)@),
        ).visited,
        match r {
            Ok(found) => analysis(
                workspace_of(*index, files@, max_depth),
                file_path@,
                depth as nat,
                names(old(analyzed)@),
            ).result == Some(found@),
            Err(e) => analysis(
                workspace_of(*index, files@, max_depth),
                file_path@,
                depth as nat,
                names(old(analyzed)@),
            ).result is None && e@ == not_at_hand(file_path@),
        },
    decreases max_depth + 1 - depth,
{
    let ghost ws = workspace_of(*index, files@, max_depth);
    if depth > max_depth || is_one_of(file_path, analyzed) {
        let r = CrossFileAnalysisResult {
            sinks: Vec::new(),
            cross_file_flows: Vec::new(),
            attack_path: Vec::new(),
        };
        assert(r@ =~= nothing()) by {
            assert(sink_views(r.sinks@) =~= Seq::<SinkView>::empty());
            assert(views(r.cross_file_flows@) =~= Seq::<CrossFileFlowView>::empty());
            assert(views(r.attack_path@) =~= Seq::<CrossFilePathNodeView>::empty());
        }
        return Ok(r);
    }
    let own = file_path.to_owned();
    proof {
        lemma_views_push(analyzed@, own);
    }
    analyzed.push(own);
    let at_hand = match find_file(files, file_path) {
        Some(f) => f,
        None => {
            return Err(join2("File not loaded: ", file_path));
        },
    };
    let mut slicer = BackwardSlicer::new();
    slicer.analyze(at_hand.source.as_str(), &at_hand.tree);
    let ghost defs = definitions_in(at_hand.tree@);
    assert(slicer.defs() =~= defs);
    let found = sinks_of(&at_hand.tree);
    let mut sinks: Vec<Sink> = Vec::new();
    let mut n: usize = 0;
    assert(sink_views(sinks@) =~= enriched_among(defs, sink_views(found@), 0));
    while n < found.len()
        invariant
            n <= found.len(),
            slicer.defs() == defs,
            slicer.seeds() == seeds_of(defs),
            sink_views(sinks@) == enriched_among(defs, sink_views(found@), n as int),
        decreases found.len() - n,
    {
        assert(sink_views(found@)[n as int] == found@[n as int]@);
        let sink = enrich(slicer.definitions(), slicer.tainted_names(), &found[n]);
        proof {
            lemma_views_push(sinks@, sink);
        }
        sinks.push(sink);
        n += 1;
    }
    let mut calls: Vec<FunctionCall> = Vec::new();
    find_function_calls(&at_hand.tree, &mut calls);
    assert(views(calls@) =~= calls_in(at_hand.tree@));
    let mut flows: Vec<CrossFileFlow> = Vec::new();
    let mut path: Vec<CrossFilePathNode> = Vec::new();
    let ghost marked = names(analyzed@);
    let ghost goal = follow_calls(
        ws,
        file_path@,
        defs,
        views(calls@),
        0,
        depth as nat,
        Progress { flows: Seq::empty(), path: Seq::empty(), visited: marked },
    );
    let mut i: usize = 0;
    proof {
        assert(views(flows@) =~= Seq::<CrossFileFlowView>::empty());
        assert(views(path@) =~= Seq::<CrossFilePathNodeView>::empty());
    }
    while i < calls.len()
        invariant
            i <= calls.len(),
            depth <= max_depth,
            ws == workspace_of(*index, files@, max_depth),
            slicer.defs() == defs,
            slicer.seeds() == seeds_of(defs),
            goal == follow_calls(
                ws,
                file_path@,
                defs,
                views(calls@),
                i as int,
                depth as nat,
                (Progress { flows: views(flows@), path: views(path@), visited: names(analyzed@) }),
            ),
        decreases calls.len() - i,
    {
        let call = &calls[i];
        assert(views(calls@)[i as int] == call@);
        match resolve_target(index, file_path, call.name.as_str()) {
            Some(target) => {
                let mut args: Vec<String> = Vec::new();
                push_tainted(slicer.definitions(), slicer.tainted_names(), &call.args, &mut args);
                assert(names(args@) =~= tainted_of(defs, call@.args));
                if args.len() > 0 {
                    let ghost before = Progress {
                        flows: views(flows@),
                        path: views(path@),
                        visited: names(analyzed@),
                    };
                    let ghost symbol = cross_target(ws, file_path@, call@.name).unwrap();
                    assert(symbol.file_path == target.0@ && symbol.line == target.1);
                    let flow = CrossFileFlow {
                        caller_file: file_path.to_owned(),
                        caller_line: call.line,
                        function_called: call.name.clone(),
                        callee_file: target.0.clone(),
                        callee_line: target.1,
                        tainted_args: copy_names(&args),
                    };
                    let row = CrossFilePathNode {
                        file_path: file_path.to_owned(),
                        line: call.line,
                        code: join2(call.name.as_str(), "(...)"),
                        node_type: "CROSS_FILE_CALL".to_owned(),
                        is_entry_point: false,
                        is_sink: false,
                    };
                    proof {
                        lemma_views_push(flows@, flow);
                        lemma_views_push(path@, row);
                        assert(flow@ == flow_of(file_path@, call@, symbol, names(args@)));
                        assert(row@ == call_node(file_path@, call@));
                    }
                    flows.push(flow);
                    path.push(row);
                    let ghost sub = analysis(
                        ws,
                        symbol.file_path,
                        (depth + 1) as nat,
                        names(analyzed@),
                    );
                    if depth < max_depth {
                        match analyze_file_internal(
                            index,
                            files,
                            max_depth,
                            target.0.as_str(),
                            depth + 1,
                            analyzed,
                        ) {
                            Ok(deeper) => {
                                let mut deeper = deeper;
                                push_reached_nodes(
                                    target.0.as_str(),
                                    &deeper.sinks,
                                    &args,
                                    &mut path,
                                );
                                proof {
                                    lemma_views_add(flows@, deeper.cross_file_flows@);
                                }
                                flows.append(&mut deeper.cross_file_flows);
                            },
                            Err(_) => {},
                        }
                    } else {
                        proof {
                            assert(sub.result == Some(nothing()));
                            assert(views(flows@) + nothing().cross_file_flows =~= views(flows@));
                            assert(views(path@) + reached_nodes(
                                symbol.file_path,
                                nothing().sinks,
                                names(args@),
                                0,
                            ) =~= views(path@));
                        }
                    }
                    assert((Progress {
                        flows: views(flows@),
                        path: views(path@),
                        visited: names(analyzed@),
                    }) == after_call(file_path@, call@, symbol, names(args@), sub, before));
                }
            },
            None => {},
        }
        i += 1;
    }
    push_sink_nodes(file_path, &sinks, &mut path);
    Ok(CrossFileAnalysisResult { sinks, cross_file_flows: flows, attack_path: path })
}

/// The cross-file slicer: an index of the workspace, the files at hand, and
/// the bound on the depth of calls followed.
pub struct CrossFileSlicer {
    indexer: ProjectIndexer,
    parser: PythonParser,
    files: Vec<ParsedFile>,
    analyzed_files: Vec<String>,
    max_depth: usize,
}

impl CrossFileSlicer {
    /// What the engine works on.
    pub closed spec fn workspace(&self) -> Workspace {
        workspace_of(self.indexer, self.files@, self.max_depth)
    }

    /// The files analysed by the last analysis, in the order they were met.
    pub closed spec fn analyzed(&self) -> Seq<Seq<char>> {
        names(self.analyzed_files@)
    }

    /// The root of the workspace.
    pub closed spec fn root(&self) -> Seq<char> {
        self.indexer.root()
    }

    /// A slicer for the workspace under `workspace_root`, with no file at
    /// hand and calls followed three levels deep. It fails where no parser
    /// for Python can be made, and says what the parser said.
    pub fn new(workspace_root: String) -> (r: Result<Self, String>)
        ensures
            r matches Ok(slicer) ==> slicer.workspace() == empty_workspace() && slicer.root()
                == workspace_root@,
            r matches Err(e) ==> is_language_failure(e@),
    {
        let parser = match PythonParser::new() {
            Ok(p) => p,
            Err(e) => {
                return Err(e);
            },
        };
        match ProjectIndexer::new(workspace_root) {
            Ok(indexer) => {
                let slicer = CrossFileSlicer {
                    indexer,
                    parser,
                    files: Vec::new(),
                    analyzed_files: Vec::new(),
                    max_depth: 3,
                };
                assert(slicer.workspace().files =~= Seq::<FileView>::empty());
                Ok(slicer)
            },
            Err(e) => Err(e),
        }
    }

    /// Sets the bound on the depth of calls followed.
    pub fn set_max_depth(&mut self, max_depth: usize)
        ensures
            final(self).root() == old(self).root(),
            final(self).analyzed() == old(self).analyzed(),
            final(self).workspace().max_depth == max_depth,
            final(self).workspace().files == old(self).workspace().files,
            final(self).workspace().symbols == old(self).workspace().symbols,
            final(self).workspace().entries == old(self).workspace().entries,
    {
        self.max_depth = max_depth;
    }

    /// Takes the file `path`, whose syntax tree is `tree`, at hand, in place
    /// of any file taken under that path before. The index is as it was.
    pub fn load_tree(&mut self, path: &str, source: &str, tree: SyntaxNode)
        ensures
            final(self).root() == old(self).root(),
            final(self).analyzed() == old(self).analyzed(),
            final(self).workspace().max_depth == old(self).workspace().max_depth,
            final(self).workspace().symbols == old(self).workspace().symbols,
            final(self).workspace().entries == old(self).workspace().entries,
            final(self).workspace().files == old(self).workspace().files.push(
                file_view(path@, source@, tree@),
            ),
    {
        let file = ParsedFile { path: path.to_owned(), source: source.to_owned(), tree };
        self.files.push(file);
    }

    /// Takes the file `path`, whose text is `source`, at hand, by its syntax
    /// tree, without indexing it; it fails where the text has no syntax
    /// tree, and nothing changes then.
    pub fn load_file(&mut self, path: &str, source: &str) -> (r: Result<(), String>)
        ensures
            final(self).root() == old(self).root(),
            final(self).analyzed() == old(self).analyzed(),
            final(self).workspace() == take_step(old(self).workspace(), read_file(path@, source@)),
            r is Ok <==> syntax_tree(source@) is Some,
            r matches Err(e) ==> e@ == "Parse failed"@,
    {
        match self.parser.parse(source) {
            Ok(tree) => {
                self.load_tree(path, source, tree);
                Ok(())
            },
            Err(_) => Err("Parse failed".to_owned()),
        }
    }

    /// Indexes `files` and takes them at hand, one after the other, and
    /// counts those that have a syntax tree.
    pub fn index_workspace(&mut self, files: &Vec<SourceFile>) -> (r: Result<usize, String>)
        ensures
            final(self).root() == old(self).root(),
            final(self).analyzed() == old(self).analyzed(),
            final(self).workspace() == loaded(
                old(self).workspace(),
                old(self).root(),
                read_files(files@),
            ),
            r is Ok,
            r->Ok_0 == read_count(read_files(files@)),
    {
        let mut count: usize = 0;
        let mut i: usize = 0;
        let ghost all = read_files(files@);
        while i < files.len()
            invariant
                i <= files.len(),
                count <= i,
                all == read_files(files@),
                count == read_count(all.take(i as int)),
                self.root() == old(self).root(),
                self.analyzed() == old(self).analyzed(),
                self.workspace() == loaded(old(self).workspace(), old(self).root(), all.take(i as int)),
            decreases files.len() - i,
        {
            let path = files[i].path.as_str();
            let source = files[i].source.as_str();
            proof {
                assert(all.take(i + 1).drop_last() =~= all.take(i as int));
                assert(all.take(i + 1).last() == read_file(path@, source@));
            }
            match self.parser.parse(source) {
                Ok(tree) => {
                    self.indexer.index_tree(path, &tree);
                    self.load_tree(path, source, tree);
                    count += 1;
                },
                Err(_) => {},
            }
            i += 1;
        }
        proof {
            assert(all.take(i as int) =~= all);
        }
        Ok(count)
    }

    /// The files analysed by the last analysis, in the order they were met.
    pub fn analyzed_files(&self) -> (r: &Vec<String>)
        ensures
            names(r@) == self.analyzed(),
    {
        &self.analyzed_files
    }

    /// The index of the workspace.
    pub fn indexer(&self) -> (r: &ProjectIndexer)
        ensures
            r.symbols() == self.workspace().symbols,
            r.entries() == self.workspace().entries,
    {
        &self.indexer
    }

    /// The analysis of `file_path` across the workspace, begun afresh: see
    /// `analysis`. It fails where the file is not at hand.
    pub fn analyze_file(&mut self, file_path: &str) -> (r: Result<CrossFileAnalysisResult, String>)
        ensures
            final(self).root() == old(self).root(),
            final(self).workspace() == old(self).workspace(),
            final(self).analyzed() == analysis(
                old(self).workspace(),
                file_path@,
                0,
                Seq::empty(),
            ).visited,
            match r {
                Ok(found) => analysis(old(self).workspace(), file_path@, 0, Seq::empty()).result
                    == Some(found@),
                Err(e) => analysis(old(self).workspace(), file_path@, 0, Seq::empty()).result
                    is None && e@ == not_at_hand(file_path@),
            },
    {
        let mut analyzed: Vec<String> = Vec::new();
        assert(names(analyzed@) =~= Seq::<Seq<char>>::empty());
        let r = analyze_file_internal(
            &self.indexer,
            &self.files,
            self.max_depth,
            file_path,
            0,
            &mut analyzed,
        );
        self.analyzed_files = analyzed;
        r
    }
}

} // verus!
