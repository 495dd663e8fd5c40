//! The sink classifier: which calls of a syntax tree are dangerous, of which
//! kind, and which names feed their dangerous argument.

use crate::model::{sink_views, Sink, SinkType, SinkView};
use crate::syntax::{
    all_lines_from_one, language_error_text, lemma_whole_lines_from_one, lines_from_one,
    parser_new, parser_set_language, python_language, read_raw, syntax_tree, tree_of, SyntaxNode,
    SyntaxView,
};
use crate::text::{after_last, contains, contains_text, ends_with, ends_with_text, join2, last_segment, names, same_text, starts_with_text};
use vstd::prelude::*;

verus! {

/// Method names of database calls.
pub open spec fn is_sql_tail(t: Seq<char>) -> bool {
    t == "execute"@ || t == "executemany"@ || t == "raw"@ || t == "execute_sql"@
}

/// Method names of shell calls.
pub open spec fn is_command_tail(t: Seq<char>) -> bool {
    t == "system"@ || t == "popen"@ || t == "call"@ || t == "run"@ || t == "check_output"@ || t
        == "check_call"@ || t == "Popen"@ || t == "getoutput"@ || t == "getstatusoutput"@
}

/// Shell method names that are dangerous whatever they are called on.
pub open spec fn is_shell_tail(t: Seq<char>) -> bool {
    t == "system"@ || t == "popen"@ || t == "getoutput"@ || t == "getstatusoutput"@
}

/// Names of calls that run code.
pub open spec fn is_code_tail(t: Seq<char>) -> bool {
    t == "eval"@ || t == "exec"@ || t == "compile"@
}

/// Method names of file operations.
pub open spec fn is_path_tail(t: Seq<char>) -> bool {
    t == "open"@ || t == "read_file"@ || t == "write_file"@ || t == "send_file"@ || t == "remove"@
        || t == "unlink"@
}

/// Method names of deserialisers.
pub open spec fn is_load_tail(t: Seq<char>) -> bool {
    t == "loads"@ || t == "load"@
}

/// Whether the callee mentions a database handle.
pub open spec fn mentions_database(callee: Seq<char>) -> bool {
    contains_text(callee, "cursor"@) || contains_text(callee, "execute"@) || contains_text(
        callee,
        "db"@,
    ) || contains_text(callee, "connection"@)
}

/// Whether the callee mentions a module that runs commands.
pub open spec fn mentions_shell(callee: Seq<char>) -> bool {
    contains_text(callee, "os."@) || contains_text(callee, "subprocess"@)
}

/// Whether the callee mentions a module that deserialises.
pub open spec fn mentions_deserializer(callee: Seq<char>) -> bool {
    contains_text(callee, "pickle"@) || contains_text(callee, "marshal"@) || contains_text(
        callee,
        "yaml"@,
    )
}

/// Whether the callee ends as an outbound request does.
pub open spec fn ends_as_request(callee: Seq<char>) -> bool {
    ends_with_text(callee, "requests.get"@) || ends_with_text(callee, "requests.post"@)
        || ends_with_text(callee, "urlopen"@) || ends_with_text(callee, "urlretrieve"@)
}

/// Whether the callee ends as an XML parse of lxml or etree does.
pub open spec fn ends_as_xml_parse(callee: Seq<char>) -> bool {
    (ends_with_text(callee, "parse"@) || ends_with_text(callee, "fromstring"@)) && (contains_text(
        callee,
        "lxml"@,
    ) || contains_text(callee, "etree"@))
}

/// Whether the callee ends as a call into the `re` module does.
pub open spec fn ends_as_regex_call(callee: Seq<char>) -> bool {
    (ends_with_text(callee, "compile"@) || ends_with_text(callee, "match"@) || ends_with_text(
        callee,
        "search"@,
    ) || ends_with_text(callee, "findall"@) || ends_with_text(callee, "sub"@)) && contains_text(
        callee,
        "re."@,
    )
}

/// The kind of sink that a call of `callee` is, if any: the first rule that
/// matches, in the order written.
pub open spec fn sink_kind(callee: Seq<char>) -> Option<SinkType> {
    let tail = after_last(callee, '.');
    if is_sql_tail(tail) && mentions_database(callee) {
        Some(SinkType::SqlInjection)
    } else if is_command_tail(tail) && (mentions_shell(callee) || is_shell_tail(tail)) {
        Some(SinkType::CommandInjection)
    } else if is_code_tail(tail) {
        Some(SinkType::CodeInjection)
    } else if is_path_tail(tail) {
        Some(SinkType::PathTraversal)
    } else if is_load_tail(tail) && mentions_deserializer(callee) {
        Some(SinkType::Deserialization)
    } else if ends_as_request(callee) {
        Some(SinkType::Ssrf)
    } else if ends_as_xml_parse(callee) {
        Some(SinkType::Xxe)
    } else if ends_as_regex_call(callee) {
        Some(SinkType::CodeInjection)
    } else if tail == "eval"@ || tail == "exec"@ {
        Some(SinkType::CodeInjection)
    } else if tail == "system"@ {
        Some(SinkType::CommandInjection)
    } else {
        None
    }
}

/// Kinds of nodes that are string literals.
pub open spec fn is_string_kind(k: Seq<char>) -> bool {
    k == "string"@ || k == "concatenated_string"@ || k == "formatted_string"@
}

/// Kinds of nodes that hold an expression inside a string literal.
pub open spec fn is_interpolation_kind(k: Seq<char>) -> bool {
    k == "interpolation"@ || k == "format_expression"@
}

/// The names that `node` reads, in source order: an identifier gives its
/// text; an attribute its whole dotted text, as one name; a string literal
/// only what its interpolations read.
pub open spec fn vars_of(node: SyntaxView) -> Seq<Seq<char>>
    decreases node, 1int,
{
    if node.kind == "identifier"@ {
        seq![node.text]
    } else if is_string_kind(node.kind) {
        string_vars(node.children)
    } else if node.kind == "attribute"@ {
        seq![node.text]
    } else {
        vars_of_all(node.children)
    }
}

/// The names that `nodes` read, node after node.
pub open spec fn vars_of_all(nodes: Seq<SyntaxView>) -> Seq<Seq<char>>
    decreases nodes, 0int,
{
    if nodes.len() == 0 {
        Seq::empty()
    } else {
        vars_of_all(nodes.drop_last()) + vars_of(nodes.last())
    }
}

/// The names that one part of a string literal reads.
pub open spec fn string_part_vars(part: SyntaxView) -> Seq<Seq<char>>
    decreases part, 2int,
{
    if is_interpolation_kind(part.kind) {
        vars_of(part)
    } else if part.kind == "concatenated_string"@ || part.kind == "string"@ {
        string_vars(part.children)
    } else {
        Seq::empty()
    }
}

/// The names that the parts of a string literal read, part after part.
pub open spec fn string_vars(parts: Seq<SyntaxView>) -> Seq<Seq<char>>
    decreases parts, 0int,
{
    if parts.len() == 0 {
        Seq::empty()
    } else {
        string_vars(parts.drop_last()) + string_part_vars(parts.last())
    }
}

/// The names that feed a database call: those of its first named argument.
pub open spec fn sql_vars(arguments: SyntaxView) -> Seq<Seq<char>> {
    match arguments.first_named() {
        Some(first) => vars_of(first),
        None => Seq::empty(),
    }
}

/// The names that feed a call of kind `kind` with the argument list
/// `arguments`.
pub open spec fn fed_by(kind: SinkType, arguments: SyntaxView) -> Seq<Seq<char>> {
    if kind == SinkType::SqlInjection {
        sql_vars(arguments)
    } else {
        vars_of(arguments)
    }
}

/// The sink that the call `node` is, if it is one and some name feeds it.
pub open spec fn call_sink(node: SyntaxView) -> Option<SinkView> {
    match node.field_child("function"@) {
        Some(function) => match sink_kind(function.text) {
            Some(kind) => match node.field_child("arguments"@) {
                Some(arguments) => if fed_by(kind, arguments).len() == 0 {
                    None
                } else {
                    Some(
                        SinkView {
                            sink_type: kind,
                            line: node.line,
                            column: node.column,
                            code_snippet: node.text,
                            tainted_vars: fed_by(kind, arguments),
                        },
                    )
                },
                None => None,
            },
            None => None,
        },
        None => None,
    }
}

/// The sink at `node` itself, as a sequence of one or none.
pub open spec fn sink_here(node: SyntaxView) -> Seq<SinkView> {
    if node.kind == "call"@ {
        match call_sink(node) {
            Some(sink) => seq![sink],
            None => Seq::empty(),
        }
    } else {
        Seq::empty()
    }
}

/// The sinks of the tree under `node`, a node before what stands inside it,
/// in source order.
pub open spec fn sinks_in(node: SyntaxView) -> Seq<SinkView>
    decreases node, 1int,
{
    sink_here(node) + sinks_in_all(node.children)
}

/// The sinks of the trees under `nodes`, tree after tree.
pub open spec fn sinks_in_all(nodes: Seq<SyntaxView>) -> Seq<SinkView>
    decreases nodes, 0int,
{
    if nodes.len() == 0 {
        Seq::empty()
    } else {
        sinks_in_all(nodes.drop_last()) + sinks_in(nodes.last())
    }
}

proof fn lemma_vars_of_all_next(nodes: Seq<SyntaxView>, i: int)
    requires
        0 <= i < nodes.len(),
    ensures
        vars_of_all(nodes.take(i + 1)) == vars_of_all(nodes.take(i)) + vars_of(nodes[i]),
{
    assert(nodes.take(i + 1).drop_last() =~= nodes.take(i));
}

proof fn lemma_string_vars_next(parts: Seq<SyntaxView>, i: int)
    requires
        0 <= i < parts.len(),
    ensures
        string_vars(parts.take(i + 1)) == string_vars(parts.take(i)) + string_part_vars(parts[i]),
{
    assert(parts.take(i + 1).drop_last() =~= parts.take(i));
}

proof fn lemma_sinks_in_all_next(nodes: Seq<SyntaxView>, i: int)
    requires
        0 <= i < nodes.len(),
    ensures
        sinks_in_all(nodes.take(i + 1)) == sinks_in_all(nodes.take(i)) + sinks_in(nodes[i]),
{
    assert(nodes.take(i + 1).drop_last() =~= nodes.take(i));
}

/// Every sink of a tree is fed by at least one name.
pub proof fn lemma_sinks_are_fed(node: SyntaxView)
    ensures
        forall|i: int| 0 <= i < sinks_in(node).len() ==> #[trigger] sinks_in(
            node,
        )[i].tainted_vars.len() > 0,
    decreases node, 1int,
{
    lemma_all_sinks_are_fed(node.children);
}

/// Every sink of a row of trees is fed by at least one name.
pub proof fn lemma_all_sinks_are_fed(nodes: Seq<SyntaxView>)
    ensures
        forall|i: int| 0 <= i < sinks_in_all(nodes).len() ==> #[trigger] sinks_in_all(
            nodes,
        )[i].tainted_vars.len() > 0,
    decreases nodes, 0int,
{
    if nodes.len() > 0 {
        lemma_all_sinks_are_fed(nodes.drop_last());
        lemma_sinks_are_fed(nodes.last());
    }
}

/// Every sink of a tree whose lines are counted from 1 stands on a line that
/// is at least 1.
pub proof fn lemma_sink_lines_from_one(node: SyntaxView)
    requires
        lines_from_one(node),
    ensures
        forall|i: int| 0 <= i < sinks_in(node).len() ==> (#[trigger] sinks_in(node)[i]).line >= 1,
    decreases node, 1int,
{
    lemma_all_sink_lines_from_one(node.children);
}

/// The same for a row of trees.
pub proof fn lemma_all_sink_lines_from_one(nodes: Seq<SyntaxView>)
    requires
        all_lines_from_one(nodes),
    ensures
        forall|i: int|
            0 <= i < sinks_in_all(nodes).len() ==> (#[trigger] sinks_in_all(nodes)[i]).line >= 1,
    decreases nodes, 0int,
{
    if nodes.len() > 0 {
        lemma_all_sink_lines_from_one(nodes.drop_last());
        lemma_sink_lines_from_one(nodes.last());
    }
}

/// A database call is a sink exactly when its first named argument reads a
/// name, and then the names that feed it are those of that argument alone:
/// what the later arguments read does not count.
pub proof fn lemma_database_call_reads_first_argument(
    node: SyntaxView,
    function: SyntaxView,
    arguments: SyntaxView,
)
    requires
        node.field_child("function"@) == Some(function),
        node.field_child("arguments"@) == Some(arguments),
        sink_kind(function.text) == Some(SinkType::SqlInjection),
    ensures
        arguments.first_named() is None ==> call_sink(node) is None,
        arguments.first_named() matches Some(first) ==> {
            &&& vars_of(first).len() == 0 ==> call_sink(node) is None
            &&& vars_of(first).len() > 0 ==> (call_sink(node) matches Some(sink)
                && sink.tainted_vars == vars_of(first))
        },
{
}

/// A part of a string literal that is neither an interpolation nor a string.
pub open spec fn is_plain_part(part: SyntaxView) -> bool {
    !is_interpolation_kind(part.kind) && part.kind != "concatenated_string"@ && part.kind
        != "string"@
}

/// A string literal whose parts are neither interpolations nor strings reads
/// no name.
pub proof fn lemma_plain_string_reads_nothing(node: SyntaxView)
    requires
        is_string_kind(node.kind),
        node.kind != "identifier"@,
        forall|i: int| 0 <= i < node.children.len() ==> is_plain_part(#[trigger] node.children[i]),
    ensures
        vars_of(node).len() == 0,
{
    lemma_plain_parts_read_nothing(node.children);
}

proof fn lemma_plain_parts_read_nothing(parts: Seq<SyntaxView>)
    requires
        forall|i: int| 0 <= i < parts.len() ==> is_plain_part(#[trigger] parts[i]),
    ensures
        string_vars(parts).len() == 0,
    decreases parts.len(),
{
    if parts.len() > 0 {
        let rest = parts.drop_last();
        lemma_plain_parts_read_nothing(rest);
        assert(string_part_vars(parts.last()).len() == 0);
    }
}

fn has_sql_tail(tail: &str) -> (r: bool)
    ensures
        r == is_sql_tail(tail@),
{
    same_text(tail, "execute") || same_text(tail, "executemany") || same_text(tail, "raw")
        || same_text(tail, "execute_sql")
}

fn has_shell_tail(tail: &str) -> (r: bool)
    ensures
        r == is_shell_tail(tail@),
{
    same_text(tail, "system") || same_text(tail, "popen") || same_text(tail, "getoutput")
        || same_text(tail, "getstatusoutput")
}

fn has_command_tail(tail: &str) -> (r: bool)
    ensures
        r == is_command_tail(tail@),
{
    same_text(tail, "system") || same_text(tail, "popen") || same_text(tail, "call") || same_text(
        tail,
        "run",
    ) || same_text(tail, "check_output") || same_text(tail, "check_call") || same_text(
        tail,
        "Popen",
    ) || same_text(tail, "getoutput") || same_text(tail, "getstatusoutput")
}

fn has_code_tail(tail: &str) -> (r: bool)
    ensures
        r == is_code_tail(tail@),
{
    same_text(tail, "eval") || same_text(tail, "exec") || same_text(tail, "compile")
}

fn has_path_tail(tail: &str) -> (r: bool)
    ensures
        r == is_path_tail(tail@),
{
    same_text(tail, "open") || same_text(tail, "read_file") || same_text(tail, "write_file")
        || same_text(tail, "send_file") || same_text(tail, "remove") || same_text(tail, "unlink")
}

fn has_load_tail(tail: &str) -> (r: bool)
    ensures
        r == is_load_tail(tail@),
{
    same_text(tail, "loads") || same_text(tail, "load")
}

fn names_database(callee: &str) -> (r: bool)
    ensures
        r == mentions_database(callee@),
{
    contains(callee, "cursor") || contains(callee, "execute") || contains(callee, "db")
        || contains(callee, "connection")
}

fn names_shell(callee: &str) -> (r: bool)
    ensures
        r == mentions_shell(callee@),
{
    contains(callee, "os.") || contains(callee, "subprocess")
}

fn names_deserializer(callee: &str) -> (r: bool)
    ensures
        r == mentions_deserializer(callee@),
{
    contains(callee, "pickle") || contains(callee, "marshal") || contains(callee, "yaml")
}

fn is_request(callee: &str) -> (r: bool)
    ensures
        r == ends_as_request(callee@),
{
    ends_with(callee, "requests.get") || ends_with(callee, "requests.post") || ends_with(
        callee,
        "urlopen",
    ) || ends_with(callee, "urlretrieve")
}

fn is_xml_parse(callee: &str) -> (r: bool)
    ensures
        r == ends_as_xml_parse(callee@),
{
    (ends_with(callee, "parse") || ends_with(callee, "fromstring")) && (contains(callee, "lxml")
        || contains(callee, "etree"))
}

fn is_regex_call(callee: &str) -> (r: bool)
    ensures
        r == ends_as_regex_call(callee@),
{
    (ends_with(callee, "compile") || ends_with(callee, "match") || ends_with(callee, "search")
        || ends_with(callee, "findall") || ends_with(callee, "sub")) && contains(callee, "re.")
}

/// The kind of sink that a call of `function_name` is, if any.
pub fn classify_sink(function_name: &str) -> (r: Option<SinkType>)
    ensures
        r == sink_kind(function_name@),
{
    let tail = last_segment(function_name, '.');
    if has_sql_tail(tail) && names_database(function_name) {
        Some(SinkType::SqlInjection)
    } else if has_command_tail(tail) && (names_shell(function_name) || has_shell_tail(tail)) {
        Some(SinkType::CommandInjection)
    } else if has_code_tail(tail) {
        Some(SinkType::CodeInjection)
    } else if has_path_tail(tail) {
        Some(SinkType::PathTraversal)
    } else if has_load_tail(tail) && names_deserializer(function_name) {
        Some(SinkType::Deserialization)
    } else if is_request(function_name) {
        Some(SinkType::Ssrf)
    } else if is_xml_parse(function_name) {
        Some(SinkType::Xxe)
    } else if is_regex_call(function_name) {
        Some(SinkType::CodeInjection)
    } else if same_text(tail, "eval") || same_text(tail, "exec") {
        Some(SinkType::CodeInjection)
    } else if same_text(tail, "system") {
        Some(SinkType::CommandInjection)
    } else {
        None
    }
}

fn is_string_node(node: &SyntaxNode) -> (r: bool)
    ensures
        r == is_string_kind(node@.kind),
{
    node.is_kind("string") || node.is_kind("concatenated_string") || node.is_kind(
        "formatted_string",
    )
}

fn is_interpolation_node(node: &SyntaxNode) -> (r: bool)
    ensures
        r == is_interpolation_kind(node@.kind),
{
    node.is_kind("interpolation") || node.is_kind("format_expression")
}

/// Appends to `vars` the names that `node` reads.
pub fn extract_variables(node: &SyntaxNode, vars: &mut Vec<String>)
    ensures
        names(final(vars)@) == names(old(vars)@) + vars_of(node@),
    decreases *node, 1int,
{
    if node.is_kind("identifier") {
        vars.push(node.text.clone());
        return ;
    }
    if is_string_node(node) {
        extract_fstring_vars(node, vars);
        return ;
    }
    if node.is_kind("attribute") {
        vars.push(node.text.clone());
        return ;
    }
    let ghost start = names(vars@);
    let mut i: usize = 0;
    while i < node.children.len()
        invariant
            i <= node.children.len(),
            names(vars@) == start + vars_of_all(node@.children.take(i as int)),
        decreases node.children.len() - i,
    {
        proof {
            lemma_vars_of_all_next(node@.children, i as int);
        }
        extract_variables(&node.children[i], vars);
        i += 1;
    }
    proof {
        assert(node@.children.take(i as int) =~= node@.children);
    }
}

/// Appends to `vars` the names that the interpolations of the string literal
/// `node` read.
pub fn extract_fstring_vars(node: &SyntaxNode, vars: &mut Vec<String>)
    ensures
        names(final(vars)@) == names(old(vars)@) + string_vars(node@.children),
    decreases *node, 0int,
{
    let mut i: usize = 0;
    while i < node.children.len()
        invariant
            i <= node.children.len(),
            names(vars@) == names(old(vars)@) + string_vars(node@.children.take(i as int)),
        decreases node.children.len() - i,
    {
        proof {
            lemma_string_vars_next(node@.children, i as int);
        }
        let child = &node.children[i];
        if is_interpolation_node(child) {
            extract_variables(child, vars);
        } else if child.is_kind("concatenated_string") || child.is_kind("string") {
            extract_fstring_vars(child, vars);
        }
        i += 1;
    }
    proof {
        assert(node@.children.take(i as int) =~= node@.children);
    }
}

/// The names that feed a database call with the argument list `arguments`.
pub fn extract_sql_tainted_vars(arguments: &SyntaxNode) -> (r: Vec<String>)
    ensures
        names(r@) == sql_vars(arguments@),
{
    let mut vars: Vec<String> = Vec::new();
    match arguments.first_named_child() {
        Some(first) => {
            extract_variables(first, &mut vars);
        },
        None => {},
    }
    vars
}

/// The sink that the call `node` is, if it is one and some name feeds it.
pub fn check_call_node(node: &SyntaxNode) -> (r: Option<Sink>)
    ensures
        match r {
            Some(sink) => call_sink(node@) == Some(sink@),
            None => call_sink(node@) is None,
        },
{
    let function = match node.child_by_field("function") {
        Some(f) => f,
        None => {
            return None;
        },
    };
    let kind = match classify_sink(function.text.as_str()) {
        Some(k) => k,
        None => {
            return None;
        },
    };
    let arguments = match node.child_by_field("arguments") {
        Some(a) => a,
        None => {
            return None;
        },
    };
    let tainted_vars = if kind == SinkType::SqlInjection {
        extract_sql_tainted_vars(arguments)
    } else {
        let mut vars: Vec<String> = Vec::new();
        extract_variables(arguments, &mut vars);
        vars
    };
    if tainted_vars.len() == 0 {
        return None;
    }
    Some(
        Sink {
            sink_type: kind,
            line: node.line,
            column: node.column,
            code_snippet: node.text.clone(),
            tainted_vars,
        },
    )
}

/// Appends to `sinks` the sinks of the tree under `node`.
pub fn walk_tree(node: &SyntaxNode, sinks: &mut Vec<Sink>)
    ensures
        sink_views(final(sinks)@) == sink_views(old(sinks)@) + sinks_in(node@),
    decreases *node,
{
    if node.is_kind("call") {
        match check_call_node(node) {
            Some(sink) => {
                sinks.push(sink);
            },
            None => {},
        }
    }
    let ghost start = sink_views(sinks@);
    let mut i: usize = 0;
    while i < node.children.len()
        invariant
            i <= node.children.len(),
            sink_views(sinks@) == start + sinks_in_all(node@.children.take(i as int)),
        decreases node.children.len() - i,
    {
        proof {
            lemma_sinks_in_all_next(node@.children, i as int);
        }
        walk_tree(&node.children[i], sinks);
        i += 1;
    }
    proof {
        assert(node@.children.take(i as int) =~= node@.children);
    }
}

/// The sinks of `tree`, in source order; each is fed by at least one name.
pub fn sinks_of(tree: &SyntaxNode) -> (r: Vec<Sink>)
    ensures
        sink_views(r@) == sinks_in(tree@),
        forall|i: int| 0 <= i < r@.len() ==> (#[trigger] r@[i]).tainted_vars@.len() > 0,
{
    let mut sinks: Vec<Sink> = Vec::new();
    walk_tree(tree, &mut sinks);
    proof {
        lemma_sinks_are_fed(tree@);
        assert forall|i: int| 0 <= i < sinks@.len() implies (#[trigger] sinks@[i]).tainted_vars@.len()
            > 0 by {
            assert(sinks_in(tree@)[i].tainted_vars.len() > 0);
        }
    }
    sinks
}

/// A Python parser, ready to read sources. To make one is to find that the
/// parsing library takes the grammar; each source is then read with the
/// grammar set afresh, so that what is read depends on the source alone.
pub struct PythonParser {}

/// Whether `message` says that the parsing library did not take the grammar:
/// it begins so, and the library's own words follow.
pub open spec fn is_language_failure(message: Seq<char>) -> bool {
    starts_with_text(message, "Failed to set Python language: "@)
}

/// What a parser says when it returns no tree.
pub open spec fn parse_failure() -> Seq<char> {
    "Failed to parse Python source"@
}

impl PythonParser {
    /// A parser for Python. It fails, and says why, where the grammar is not
    /// one the parsing library takes.
    pub fn new() -> (r: Result<Self, String>)
        ensures
            r matches Err(e) ==> starts_with_text(e@, "Failed to set Python language: "@),
    {
        let mut parser = parser_new();
        match parser_set_language(&mut parser, python_language()) {
            Ok(()) => Ok(PythonParser {}),
            Err(error) => {
                let text = language_error_text(&error);
                let message = join2("Failed to set Python language: ", text.as_str());
                proof {
                    let prefix = "Failed to set Python language: "@;
                    assert(message@.subrange(0, prefix.len() as int) =~= prefix);
                }
                Err(message)
            },
        }
    }

    /// The syntax tree of `source`: what the parser makes of it, where that
    /// is a whole tree. A text that the parser makes no tree of, or a tree
    /// with errors in it, is refused.
    pub fn parse(&mut self, source: &str) -> (r: Result<SyntaxNode, String>)
        ensures
            match r {
                Ok(tree) => syntax_tree(source@) == Some(tree@),
                Err(e) => syntax_tree(source@) is None && e@ == parse_failure(),
            },
    {
        let nodes = match read_raw(source) {
            Some(nodes) => nodes,
            None => {
                return Err("Failed to parse Python source".to_owned());
            },
        };
        match tree_of(&nodes, source) {
            Some(tree) => if tree.is_whole() {
                Ok(tree)
            } else {
                Err("Failed to parse Python source".to_owned())
            },
            None => Err("Failed to parse Python source".to_owned()),
        }
    }

    /// The sinks of `source`: those of its syntax tree, each fed by at least
    /// one name and on a line counted from 1. It fails where the source has
    /// no syntax tree.
    pub fn find_sinks(&mut self, source: &str) -> (r: Result<Vec<Sink>, String>)
        ensures
            match r {
                Ok(sinks) => {
                    &&& syntax_tree(source@) matches Some(tree) && sink_views(sinks@) == sinks_in(
                        tree,
                    )
                    &&& forall|i: int|
                        0 <= i < sinks@.len() ==> (#[trigger] sinks@[i]).tainted_vars@.len() > 0
                            && sinks@[i].line >= 1
                },
                Err(e) => syntax_tree(source@) is None && e@ == parse_failure(),
            },
    {
        match self.parse(source) {
            Ok(tree) => {
                let sinks = sinks_of(&tree);
                proof {
                    lemma_whole_lines_from_one(tree@);
                    lemma_sink_lines_from_one(tree@);
                    assert forall|i: int| 0 <= i < sinks@.len() implies (#[trigger] sinks@[i]).line
                        >= 1 by {
                        assert(sink_views(sinks@)[i] == sinks@[i]@);
                    }
                }
                Ok(sinks)
            },
            Err(e) => Err(e),
        }
    }
}

} // verus!
