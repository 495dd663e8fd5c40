//! What an analysis reports: dangerous call sites, the rows of an attack
//! path, and the verdict.

use crate::text::{lemma_views_push, lemma_views_take_next, names, views};
use vstd::prelude::*;

verus! {

/// The kinds of vulnerability a dangerous call site can stand for.
#[derive(Debug, Clone, Copy, PartialEq, Eq, Structural)]
pub enum SinkType {
    /// A database call such as `cursor.execute`.
    SqlInjection,
    /// A shell call such as `os.system`.
    CommandInjection,
    /// Dynamic code, such as `eval`.
    CodeInjection,
    /// A file operation such as `open`.
    PathTraversal,
    /// Deserialisation, such as `pickle.loads`.
    Deserialization,
    /// An outbound request, such as `requests.get`.
    Ssrf,
    /// An XML parse, such as `lxml.etree.parse`.
    Xxe,
}

impl SinkType {
    /// The one-line description of the kind.
    pub open spec fn description_text(self) -> Seq<char> {
        match self {
            SinkType::SqlInjection => "SQL Injection - User input in database query"@,
            SinkType::CommandInjection => "Command Injection - User input in shell command"@,
            SinkType::CodeInjection => "Code Injection - User input in eval/exec"@,
            SinkType::PathTraversal => "Path Traversal - User input in file path"@,
            SinkType::Deserialization => "Insecure Deserialization - Untrusted data in pickle"@,
            SinkType::Ssrf => "Server-Side Request Forgery - User input in network request"@,
            SinkType::Xxe => "XML External Entity - User input in XML parser"@,
        }
    }

    /// The kind's name, as one word.
    pub open spec fn name_text(self) -> Seq<char> {
        match self {
            SinkType::SqlInjection => "SqlInjection"@,
            SinkType::CommandInjection => "CommandInjection"@,
            SinkType::CodeInjection => "CodeInjection"@,
            SinkType::PathTraversal => "PathTraversal"@,
            SinkType::Deserialization => "Deserialization"@,
            SinkType::Ssrf => "Ssrf"@,
            SinkType::Xxe => "Xxe"@,
        }
    }

    /// The one-line description of the kind.
    pub fn description(&self) -> (r: &'static str)
        ensures
            r@ == self.description_text(),
    {
        match self {
            SinkType::SqlInjection => "SQL Injection - User input in database query",
            SinkType::CommandInjection => "Command Injection - User input in shell command",
            SinkType::CodeInjection => "Code Injection - User input in eval/exec",
            SinkType::PathTraversal => "Path Traversal - User input in file path",
            SinkType::Deserialization => "Insecure Deserialization - Untrusted data in pickle",
            SinkType::Ssrf => "Server-Side Request Forgery - User input in network request",
            SinkType::Xxe => "XML External Entity - User input in XML parser",
        }
    }

    /// The kind's name, as one word.
    pub fn name(&self) -> (r: &'static str)
        ensures
            r@ == self.name_text(),
    {
        match self {
            SinkType::SqlInjection => "SqlInjection",
            SinkType::CommandInjection => "CommandInjection",
            SinkType::CodeInjection => "CodeInjection",
            SinkType::PathTraversal => "PathTraversal",
            SinkType::Deserialization => "Deserialization",
            SinkType::Ssrf => "Ssrf",
            SinkType::Xxe => "Xxe",
        }
    }
}

/// A dangerous call site.
#[derive(Debug, Clone)]
pub struct Sink {
    /// The kind of vulnerability.
    pub sink_type: SinkType,
    /// The line of the call, counted from 1.
    pub line: usize,
    /// The column of the call, counted from 0.
    pub column: usize,
    /// The text of the call.
    pub code_snippet: String,
    /// The names that feed the dangerous argument, in source order, repeats
    /// kept.
    pub tainted_vars: Vec<String>,
}

/// A dangerous call site, as a value of mathematics.
pub struct SinkView {
    pub sink_type: SinkType,
    pub line: usize,
    pub column: usize,
    pub code_snippet: Seq<char>,
    pub tainted_vars: Seq<Seq<char>>,
}

impl View for Sink {
    type V = SinkView;

    open spec fn view(&self) -> SinkView {
        SinkView {
            sink_type: self.sink_type,
            line: self.line,
            column: self.column,
            code_snippet: self.code_snippet@,
            tainted_vars: names(self.tainted_vars@),
        }
    }
}

/// The views of a sequence of sinks.
pub open spec fn sink_views(sinks: Seq<Sink>) -> Seq<SinkView> {
    views(sinks)
}

/// A copy of `list`, name for name.
pub fn copy_names(list: &Vec<String>) -> (r: Vec<String>)
    ensures
        names(r@) == names(list@),
{
    let mut out: Vec<String> = Vec::new();
    let mut i: usize = 0;
    while i < list.len()
        invariant
            i <= list.len(),
            names(out@) == names(list@.take(i as int)),
        decreases list.len() - i,
    {
        proof {
            lemma_views_push(out@, list@[i as int]);
            lemma_views_take_next(list@, i as int);
        }
        out.push(list[i].clone());
        i += 1;
    }
    out
}

impl Sink {
    /// A copy of the sink, field for field.
    pub fn copy(&self) -> (r: Sink)
        ensures
            r@ == self@,
    {
        Sink {
            sink_type: self.sink_type,
            line: self.line,
            column: self.column,
            code_snippet: self.code_snippet.clone(),
            tainted_vars: copy_names(&self.tainted_vars),
        }
    }
}

/// One row of an attack path.
#[derive(Debug, Clone)]
pub struct PathNode {
    /// The line the row speaks of, counted from 1.
    pub line: usize,
    /// The trimmed source line, or a snippet made up for it.
    pub code: String,
    /// What the row is: `ENTRY`, `FLOW` or `SINK`, with a few words.
    pub description: String,
}

/// One row of an attack path, as a value of mathematics.
pub struct PathNodeView {
    pub line: usize,
    pub code: Seq<char>,
    pub description: Seq<char>,
}

impl View for PathNode {
    type V = PathNodeView;

    open spec fn view(&self) -> PathNodeView {
        PathNodeView { line: self.line, code: self.code@, description: self.description@ }
    }
}

/// The views of a sequence of path rows.
pub open spec fn path_views(path: Seq<PathNode>) -> Seq<PathNodeView> {
    views(path)
}

impl PathNode {
    /// A copy of the row, field for field.
    pub fn copy(&self) -> (r: PathNode)
        ensures
            r@ == self@,
    {
        PathNode {
            line: self.line,
            code: self.code.clone(),
            description: self.description.clone(),
        }
    }
}

/// A copy of `path`, row for row.
pub fn copy_path(path: &Vec<PathNode>) -> (r: Vec<PathNode>)
    ensures
        path_views(r@) == path_views(path@),
{
    let mut out: Vec<PathNode> = Vec::new();
    let mut i: usize = 0;
    while i < path.len()
        invariant
            i <= path.len(),
            path_views(out@) == path_views(path@.take(i as int)),
        decreases path.len() - i,
    {
        let item = path[i].copy();
        proof {
            lemma_views_push(out@, item);
            lemma_views_take_next(path@, i as int);
        }
        out.push(item);
        i += 1;
    }
    out
}

/// The verdict of an analysis.
#[derive(Debug, Clone, Copy, PartialEq, Eq, Structural)]
pub enum ExploitStatus {
    /// Attacker input reaches a sink.
    Exploitable,
    /// Sinks were found, and none is reached.
    Safe,
    /// The analysis could not be carried out.
    Inconclusive,
    /// The source holds no sink.
    NoSinksFound,
}

/// The report of an analysis.
#[derive(Debug, Clone)]
pub struct AnalysisResult {
    /// Whether the analysis was carried out.
    pub success: bool,
    /// The verdict.
    pub status: ExploitStatus,
    /// The sinks the verdict speaks of.
    pub sinks: Vec<Sink>,
    /// Sample payloads for the first exploitable sink.
    pub payload: Option<String>,
    /// The verdict in prose.
    pub explanation: String,
    /// The attack paths of the exploitable sinks, one after the other.
    pub attack_path: Vec<PathNode>,
    /// How long the analysis took, in milliseconds.
    pub analysis_time_ms: u64,
}

/// The report of an analysis, as a value of mathematics.
pub struct AnalysisResultView {
    pub success: bool,
    pub status: ExploitStatus,
    pub sinks: Seq<SinkView>,
    pub payload: Option<Seq<char>>,
    pub explanation: Seq<char>,
    pub attack_path: Seq<PathNodeView>,
    pub analysis_time_ms: u64,
}

impl View for AnalysisResult {
    type V = AnalysisResultView;

    open spec fn view(&self) -> AnalysisResultView {
        AnalysisResultView {
            success: self.success,
            status: self.status,
            sinks: sink_views(self.sinks@),
            payload: match self.payload {
                Some(p) => Some(p@),
                None => None,
            },
            explanation: self.explanation@,
            attack_path: path_views(self.attack_path@),
            analysis_time_ms: self.analysis_time_ms,
        }
    }
}

impl Default for AnalysisResult {
    /// An unsuccessful, inconclusive report with nothing in it.
    fn default() -> (r: Self)
        ensures
            !r.success,
            r.status == ExploitStatus::Inconclusive,
            r.sinks@.len() == 0,
            r.payload is None,
            r.explanation@.len() == 0,
            r.attack_path@.len() == 0,
            r.analysis_time_ms == 0,
    {
        AnalysisResult {
            success: false,
            status: ExploitStatus::Inconclusive,
            sinks: Vec::new(),
            payload: None,
            explanation: String::new(),
            attack_path: Vec::new(),
            analysis_time_ms: 0,
        }
    }
}

} // verus!
