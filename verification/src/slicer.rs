//! The backward slicer: which names are defined where and from what, which
//! of them an attacker controls, and the path from a sink back to its source.

use crate::model::{copy_path, path_views, PathNode, PathNodeView, Sink, SinkView};
use crate::syntax::{
    all_lines_from_one, lemma_child_lines_from_one, lines_from_one, SyntaxNode, SyntaxView,
};
use crate::taint::{entry_at, is_entry, search_taint, tainted};
use crate::text::{
    chars_of, contains_chars, contains_text, is_one_of, join2, lemma_push_keeps, lemma_views_push,
    line_at, names, same_text, trimmed_line, views,
};
use vstd::prelude::*;

verus! {

/// Where the value of a definition comes from.
#[derive(Debug, Clone, PartialEq)]
pub enum ValueSource {
    /// A literal.
    Literal,
    /// Attacker input, with the pattern that gave it away.
    UserInput(String),
    /// Other names.
    Derived,
    /// A parameter of a function.
    Parameter,
    /// Nothing that is known.
    Unknown,
}

/// Where the value of a definition comes from, as a value of mathematics.
pub enum SourceView {
    Literal,
    UserInput(Seq<char>),
    Derived,
    Parameter,
    Unknown,
}

impl View for ValueSource {
    type V = SourceView;

    open spec fn view(&self) -> SourceView {
        match self {
            ValueSource::Literal => SourceView::Literal,
            ValueSource::UserInput(s) => SourceView::UserInput(s@),
            ValueSource::Derived => SourceView::Derived,
            ValueSource::Parameter => SourceView::Parameter,
            ValueSource::Unknown => SourceView::Unknown,
        }
    }
}

impl ValueSource {
    /// A copy of the value.
    pub fn copy(&self) -> (r: ValueSource)
        ensures
            r@ == self@,
    {
        match self {
            ValueSource::Literal => ValueSource::Literal,
            ValueSource::UserInput(s) => ValueSource::UserInput(s.clone()),
            ValueSource::Derived => ValueSource::Derived,
            ValueSource::Parameter => ValueSource::Parameter,
            ValueSource::Unknown => ValueSource::Unknown,
        }
    }
}

/// One assignment to a name, or one binding of a parameter.
#[derive(Debug, Clone)]
pub struct VariableDefinition {
    /// The name defined.
    pub name: String,
    /// The line of the definition, counted from 1.
    pub line: usize,
    /// Where the value comes from.
    pub value_source: ValueSource,
    /// The names that the value reads.
    pub dependencies: Vec<String>,
}

/// A definition, as a value of mathematics.
pub struct DefinitionView {
    pub name: Seq<char>,
    pub line: usize,
    pub value_source: SourceView,
    pub dependencies: Seq<Seq<char>>,
}

impl View for VariableDefinition {
    type V = DefinitionView;

    open spec fn view(&self) -> DefinitionView {
        DefinitionView {
            name: self.name@,
            line: self.line,
            value_source: self.value_source@,
            dependencies: names(self.dependencies@),
        }
    }
}

/// The views of a sequence of definitions.
pub open spec fn def_views(defs: Seq<VariableDefinition>) -> Seq<DefinitionView> {
    views(defs)
}

/// The names that the slicer reads off `node`, in source order: the text of
/// an identifier and the whole dotted text of an attribute, each before what
/// stands inside the node.
pub open spec fn identifiers_in(node: SyntaxView) -> Seq<Seq<char>>
    decreases node, 1int,
{
    identifier_here(node) + identifiers_in_all(node.children)
}

/// The name that `node` itself gives, as a sequence of one or none.
pub open spec fn identifier_here(node: SyntaxView) -> Seq<Seq<char>> {
    if node.kind == "identifier"@ || node.kind == "attribute"@ {
        seq![node.text]
    } else {
        Seq::empty()
    }
}

/// The names that the slicer reads off `nodes`, node after node.
pub open spec fn identifiers_in_all(nodes: Seq<SyntaxView>) -> Seq<Seq<char>>
    decreases nodes, 0int,
{
    if nodes.len() == 0 {
        Seq::empty()
    } else {
        identifiers_in_all(nodes.drop_last()) + identifiers_in(nodes.last())
    }
}

/// The first pattern of attacker input that `text` holds, if any: the
/// accessors of a web request, then those of the command line.
pub open spec fn user_input_pattern(text: Seq<char>) -> Option<Seq<char>> {
    if contains_text(text, "request.args"@) {
        Some("request.args"@)
    } else if contains_text(text, "request.form"@) {
        Some("request.form"@)
    } else if contains_text(text, "request.data"@) {
        Some("request.data"@)
    } else if contains_text(text, "request.json"@) {
        Some("request.json"@)
    } else if contains_text(text, "request.files"@) {
        Some("request.files"@)
    } else if contains_text(text, "request.values"@) {
        Some("request.values"@)
    } else if contains_text(text, "request.cookies"@) {
        Some("request.cookies"@)
    } else if contains_text(text, "request.headers"@) {
        Some("request.headers"@)
    } else if contains_text(text, "sys.argv"@) {
        Some("sys.argv"@)
    } else if contains_text(text, "args."@) {
        Some("args."@)
    } else if contains_text(text, "input("@) {
        Some("input("@)
    } else {
        None
    }
}

/// Kinds of nodes that are literals other than strings.
pub open spec fn is_literal_kind(k: Seq<char>) -> bool {
    k == "integer"@ || k == "float"@ || k == "true"@ || k == "false"@ || k == "none"@
}

/// Where the value `right` comes from, and the names it reads.
pub open spec fn value_of(right: SyntaxView) -> (SourceView, Seq<Seq<char>>) {
    match user_input_pattern(right.text) {
        Some(pattern) => (SourceView::UserInput(pattern), Seq::empty()),
        None => if is_literal_kind(right.kind) {
            (SourceView::Literal, Seq::empty())
        } else if identifiers_in(right).len() == 0 {
            (SourceView::Literal, Seq::empty())
        } else {
            (SourceView::Derived, identifiers_in(right))
        },
    }
}

/// The definition of `target` by an assignment on `line` of a value that
/// comes from `source` and reads `reads`; an augmented assignment reads its
/// target too.
pub open spec fn target_def(
    target: Seq<char>,
    line: usize,
    source: SourceView,
    reads: Seq<Seq<char>>,
    augmented: bool,
) -> DefinitionView {
    DefinitionView {
        name: target,
        line,
        value_source: source,
        dependencies: if augmented {
            reads.push(target)
        } else {
            reads
        },
    }
}

/// The definitions of `targets`, one each, in order.
pub open spec fn target_defs(
    targets: Seq<Seq<char>>,
    line: usize,
    source: SourceView,
    reads: Seq<Seq<char>>,
    augmented: bool,
) -> Seq<DefinitionView> {
    Seq::new(targets.len(), |k: int| target_def(targets[k], line, source, reads, augmented))
}

/// The definitions that the assignment `node` makes: one for each name on its
/// left side.
pub open spec fn assignment_defs(node: SyntaxView) -> Seq<DefinitionView> {
    match node.field_child("left"@) {
        Some(left) => match node.field_child("right"@) {
            Some(right) => target_defs(
                identifiers_in(left),
                node.line,
                value_of(right).0,
                value_of(right).1,
                node.kind == "augmented_assignment"@,
            ),
            None => Seq::empty(),
        },
        None => Seq::empty(),
    }
}

/// Kinds of parameters that hold a `*` or `**` before the name.
pub open spec fn is_splat_kind(k: Seq<char>) -> bool {
    k == "list_splat_pattern"@ || k == "dictionary_splat_pattern"@
}

/// The name that a `*` or `**` parameter binds: the text of its first named
/// child.
pub open spec fn splat_name(param: SyntaxView) -> Option<Seq<char>> {
    match param.first_named() {
        Some(inner) => Some(inner.text),
        None => None,
    }
}

/// The name that a parameter binds, whatever its form: plain, typed, with a
/// default, `*args` or `**kwargs`.
pub open spec fn param_name(param: SyntaxView) -> Option<Seq<char>> {
    if param.kind == "identifier"@ {
        Some(param.text)
    } else if param.kind == "typed_parameter"@ {
        match param.first_named() {
            Some(inner) => if is_splat_kind(inner.kind) {
                splat_name(inner)
            } else {
                Some(inner.text)
            },
            None => None,
        }
    } else if param.kind == "default_parameter"@ || param.kind == "typed_default_parameter"@ {
        match param.field_child("name"@) {
            Some(inner) => Some(inner.text),
            None => None,
        }
    } else if is_splat_kind(param.kind) {
        splat_name(param)
    } else {
        None
    }
}

/// The definition that the parameter `param` makes, as a sequence of one or
/// none.
pub open spec fn param_def(param: SyntaxView) -> Seq<DefinitionView> {
    match param_name(param) {
        Some(name) => seq![
            DefinitionView {
                name,
                line: param.line,
                value_source: SourceView::Parameter,
                dependencies: Seq::empty(),
            },
        ],
        None => Seq::empty(),
    }
}

/// The definitions that `params` make, parameter after parameter.
pub open spec fn param_defs(params: Seq<SyntaxView>) -> Seq<DefinitionView>
    decreases params.len(),
{
    if params.len() == 0 {
        Seq::empty()
    } else {
        param_defs(params.drop_last()) + param_def(params.last())
    }
}

/// The definitions that the function or lambda `node` makes: one for each of
/// its parameters.
pub open spec fn function_defs(node: SyntaxView) -> Seq<DefinitionView> {
    match node.field_child("parameters"@) {
        Some(list) => param_defs(list.children),
        None => Seq::empty(),
    }
}

/// The definitions that `node` itself makes.
pub open spec fn own_defs(node: SyntaxView) -> Seq<DefinitionView> {
    if node.kind == "assignment"@ || node.kind == "augmented_assignment"@ {
        assignment_defs(node)
    } else if node.kind == "function_definition"@ || node.kind == "lambda"@ {
        function_defs(node)
    } else {
        Seq::empty()
    }
}

/// The definitions of the tree under `node`, a node before what stands
/// inside it, in source order.
pub open spec fn definitions_in(node: SyntaxView) -> Seq<DefinitionView>
    decreases node, 1int,
{
    own_defs(node) + definitions_in_all(node.children)
}

/// The definitions of the trees under `nodes`, tree after tree.
pub open spec fn definitions_in_all(nodes: Seq<SyntaxView>) -> Seq<DefinitionView>
    decreases nodes, 0int,
{
    if nodes.len() == 0 {
        Seq::empty()
    } else {
        definitions_in_all(nodes.drop_last()) + definitions_in(nodes.last())
    }
}

/// Every definition that an augmented assignment makes reads the name it
/// defines.
pub proof fn lemma_augmented_assignment_reads_target(node: SyntaxView)
    requires
        node.kind == "augmented_assignment"@,
    ensures
        forall|k: int|
            0 <= k < assignment_defs(node).len() ==> (#[trigger] assignment_defs(
                node,
            )[k]).dependencies.contains(assignment_defs(node)[k].name),
{
    assert forall|k: int| 0 <= k < assignment_defs(node).len() implies (#[trigger] assignment_defs(
        node,
    )[k]).dependencies.contains(assignment_defs(node)[k].name) by {
        let d = assignment_defs(node)[k];
        let right = node.field_child("right"@).unwrap();
        let reads = value_of(right).1;
        assert(d.dependencies[reads.len() as int] == d.name);
    }
}

/// Whether every definition of `defs` stands on a line that is at least 1.
pub open spec fn lines_positive(defs: Seq<DefinitionView>) -> bool {
    forall|i: int| 0 <= i < defs.len() ==> (#[trigger] defs[i]).line >= 1
}

proof fn lemma_param_lines_positive(params: Seq<SyntaxView>)
    requires
        all_lines_from_one(params),
    ensures
        lines_positive(param_defs(params)),
    decreases params.len(),
{
    if params.len() > 0 {
        lemma_param_lines_positive(params.drop_last());
        assert(lines_from_one(params.last()));
    }
}

/// Every definition of a tree whose lines are counted from 1 stands on a
/// line that is at least 1.
pub proof fn lemma_definition_lines_positive(node: SyntaxView)
    requires
        lines_from_one(node),
    ensures
        lines_positive(definitions_in(node)),
    decreases node, 1int,
{
    lemma_all_definition_lines_positive(node.children);
    lemma_child_lines_from_one(node, "parameters"@);
    match node.field_child("parameters"@) {
        Some(list) => {
            lemma_param_lines_positive(list.children);
        },
        None => {},
    }
}

/// The same for a row of trees.
pub proof fn lemma_all_definition_lines_positive(nodes: Seq<SyntaxView>)
    requires
        all_lines_from_one(nodes),
    ensures
        lines_positive(definitions_in_all(nodes)),
    decreases nodes, 0int,
{
    if nodes.len() > 0 {
        lemma_all_definition_lines_positive(nodes.drop_last());
        lemma_definition_lines_positive(nodes.last());
    }
}

proof fn lemma_identifiers_in_all_next(nodes: Seq<SyntaxView>, i: int)
    requires
        0 <= i < nodes.len(),
    ensures
        identifiers_in_all(nodes.take(i + 1)) == identifiers_in_all(nodes.take(i))
            + identifiers_in(nodes[i]),
{
    assert(nodes.take(i + 1).drop_last() =~= nodes.take(i));
}

proof fn lemma_param_defs_next(params: Seq<SyntaxView>, i: int)
    requires
        0 <= i < params.len(),
    ensures
        param_defs(params.take(i + 1)) == param_defs(params.take(i)) + param_def(params[i]),
{
    assert(params.take(i + 1).drop_last() =~= params.take(i));
}

proof fn lemma_definitions_in_all_next(nodes: Seq<SyntaxView>, i: int)
    requires
        0 <= i < nodes.len(),
    ensures
        definitions_in_all(nodes.take(i + 1)) == definitions_in_all(nodes.take(i))
            + definitions_in(nodes[i]),
{
    assert(nodes.take(i + 1).drop_last() =~= nodes.take(i));
}

/// Appends to `ids` the names that the slicer reads off `node`.
pub fn extract_identifiers(node: &SyntaxNode, ids: &mut Vec<String>)
    ensures
        names(final(ids)@) == names(old(ids)@) + identifiers_in(node@),
    decreases *node,
{
    if node.is_kind("identifier") || node.is_kind("attribute") {
        ids.push(node.text.clone());
    }
    let ghost start = names(ids@);
    let mut i: usize = 0;
    while i < node.children.len()
        invariant
            i <= node.children.len(),
            names(ids@) == start + identifiers_in_all(node@.children.take(i as int)),
        decreases node.children.len() - i,
    {
        proof {
            lemma_identifiers_in_all_next(node@.children, i as int);
        }
        extract_identifiers(&node.children[i], ids);
        i += 1;
    }
    proof {
        assert(node@.children.take(i as int) =~= node@.children);
    }
}

fn holds(text: &Vec<char>, pattern: &str) -> (r: bool)
    ensures
        r == contains_text(text@, pattern@),
{
    let p = chars_of(pattern);
    contains_chars(text, &p)
}

/// The first pattern of attacker input that `text` holds, if any.
pub fn find_user_input_pattern(text: &str) -> (r: Option<&'static str>)
    ensures
        match r {
            Some(p) => user_input_pattern(text@) == Some(p@),
            None => user_input_pattern(text@) is None,
        },
{
    let t = chars_of(text);
    if holds(&t, "request.args") {
        Some("request.args")
    } else if holds(&t, "request.form") {
        Some("request.form")
    } else if holds(&t, "request.data") {
        Some("request.data")
    } else if holds(&t, "request.json") {
        Some("request.json")
    } else if holds(&t, "request.files") {
        Some("request.files")
    } else if holds(&t, "request.values") {
        Some("request.values")
    } else if holds(&t, "request.cookies") {
        Some("request.cookies")
    } else if holds(&t, "request.headers") {
        Some("request.headers")
    } else if holds(&t, "sys.argv") {
        Some("sys.argv")
    } else if holds(&t, "args.") {
        Some("args.")
    } else if holds(&t, "input(") {
        Some("input(")
    } else {
        None
    }
}

fn is_literal_node(node: &SyntaxNode) -> (r: bool)
    ensures
        r == is_literal_kind(node@.kind),
{
    node.is_kind("integer") || node.is_kind("float") || node.is_kind("true") || node.is_kind(
        "false",
    ) || node.is_kind("none")
}

/// Where the value `right` comes from, and the names it reads.
pub fn analyze_value(right: &SyntaxNode) -> (r: (ValueSource, Vec<String>))
    ensures
        r.0@ == value_of(right@).0,
        names(r.1@) == value_of(right@).1,
{
    match find_user_input_pattern(right.text.as_str()) {
        Some(pattern) => {
            return (ValueSource::UserInput(pattern.to_owned()), Vec::new());
        },
        None => {},
    }
    if is_literal_node(right) {
        return (ValueSource::Literal, Vec::new());
    }
    let mut deps: Vec<String> = Vec::new();
    extract_identifiers(right, &mut deps);
    if deps.len() == 0 {
        (ValueSource::Literal, Vec::new())
    } else {
        (ValueSource::Derived, deps)
    }
}

/// A copy of `reads`, with `target` behind it where `augmented` is set.
fn reads_of(reads: &Vec<String>, target: &String, augmented: bool) -> (r: Vec<String>)
    ensures
        names(r@) == if augmented {
            names(reads@).push(target@)
        } else {
            names(reads@)
        },
{
    let mut out = crate::model::copy_names(reads);
    if augmented {
        out.push(target.clone());
    }
    out
}

/// Appends to `defs` the definitions that the assignment `node` makes.
pub fn process_assignment(node: &SyntaxNode, defs: &mut Vec<VariableDefinition>)
    ensures
        def_views(final(defs)@) == def_views(old(defs)@) + assignment_defs(node@),
{
    let left = match node.child_by_field("left") {
        Some(l) => l,
        None => {
            return ;
        },
    };
    let right = match node.child_by_field("right") {
        Some(r) => r,
        None => {
            return ;
        },
    };
    let mut targets: Vec<String> = Vec::new();
    extract_identifiers(left, &mut targets);
    let (source, reads) = analyze_value(right);
    let augmented = node.is_kind("augmented_assignment");
    let ghost all = target_defs(names(targets@), node.line, source@, names(reads@), augmented);
    let mut k: usize = 0;
    while k < targets.len()
        invariant
            k <= targets.len(),
            all == target_defs(names(targets@), node.line, source@, names(reads@), augmented),
            def_views(defs@) == def_views(old(defs)@) + all.take(k as int),
        decreases targets.len() - k,
    {
        let def = VariableDefinition {
            name: targets[k].clone(),
            line: node.line,
            value_source: source.copy(),
            dependencies: reads_of(&reads, &targets[k], augmented),
        };
        proof {
            lemma_views_push(defs@, def);
        }
        defs.push(def);
        k += 1;
    }
}

fn is_splat_node(node: &SyntaxNode) -> (r: bool)
    ensures
        r == is_splat_kind(node@.kind),
{
    node.is_kind("list_splat_pattern") || node.is_kind("dictionary_splat_pattern")
}

fn name_of_splat(param: &SyntaxNode) -> (r: Option<String>)
    ensures
        match r {
            Some(n) => splat_name(param@) == Some(n@),
            None => splat_name(param@) is None,
        },
{
    match param.first_named_child() {
        Some(inner) => Some(inner.text.clone()),
        None => None,
    }
}

/// The name that a parameter binds, whatever its form.
pub fn name_of_param(param: &SyntaxNode) -> (r: Option<String>)
    ensures
        match r {
            Some(n) => param_name(param@) == Some(n@),
            None => param_name(param@) is None,
        },
{
    if param.is_kind("identifier") {
        Some(param.text.clone())
    } else if param.is_kind("typed_parameter") {
        match param.first_named_child() {
            Some(inner) => if is_splat_node(inner) {
                name_of_splat(inner)
            } else {
                Some(inner.text.clone())
            },
            None => None,
        }
    } else if param.is_kind("default_parameter") || param.is_kind("typed_default_parameter") {
        match param.child_by_field("name") {
            Some(inner) => Some(inner.text.clone()),
            None => None,
        }
    } else if is_splat_node(param) {
        name_of_splat(param)
    } else {
        None
    }
}

/// Appends to `defs` the definitions that the function or lambda `node`
/// makes.
pub fn process_function_params(node: &SyntaxNode, defs: &mut Vec<VariableDefinition>)
    ensures
        def_views(final(defs)@) == def_views(old(defs)@) + function_defs(node@),
{
    let list = match node.child_by_field("parameters") {
        Some(l) => l,
        None => {
            return ;
        },
    };
    let mut i: usize = 0;
    while i < list.children.len()
        invariant
            i <= list.children.len(),
            def_views(defs@) == def_views(old(defs)@) + param_defs(list@.children.take(i as int)),
        decreases list.children.len() - i,
    {
        proof {
            lemma_param_defs_next(list@.children, i as int);
        }
        let param = &list.children[i];
        match name_of_param(param) {
            Some(name) => {
                let def = VariableDefinition {
                    name,
                    line: param.line,
                    value_source: ValueSource::Parameter,
                    dependencies: Vec::new(),
                };
                proof {
                    lemma_views_push(defs@, def);
                    assert(def@.dependencies =~= Seq::empty());
                }
                defs.push(def);
            },
            None => {
            },
        }
        i += 1;
    }
    assert(list@.children.take(i as int) =~= list@.children);
}

/// Appends to `defs` the definitions of the tree under `node`.
pub fn collect_definitions(node: &SyntaxNode, defs: &mut Vec<VariableDefinition>)
    ensures
        def_views(final(defs)@) == def_views(old(defs)@) + definitions_in(node@),
    decreases *node,
{
    if node.is_kind("assignment") || node.is_kind("augmented_assignment") {
        process_assignment(node, defs);
    } else if node.is_kind("function_definition") || node.is_kind("lambda") {
        process_function_params(node, defs);
    }
    let ghost start = def_views(defs@);
    let mut i: usize = 0;
    while i < node.children.len()
        invariant
            i <= node.children.len(),
            def_views(defs@) == start + definitions_in_all(node@.children.take(i as int)),
        decreases node.children.len() - i,
    {
        proof {
            lemma_definitions_in_all_next(node@.children, i as int);
        }
        collect_definitions(&node.children[i], defs);
        i += 1;
    }
    proof {
        assert(node@.children.take(i as int) =~= node@.children);
    }
}

/// How far a trace has come: the definitions it has stood on, by name and
/// line, and the rows it has written.
pub struct Walk {
    pub visited: Seq<(Seq<char>, usize)>,
    pub rows: Seq<PathNodeView>,
}

/// The label of the row for a definition whose value comes from `source`.
pub open spec fn describe(source: SourceView) -> Seq<char> {
    match source {
        SourceView::UserInput(pattern) => "ENTRY: User input from "@ + pattern,
        SourceView::Parameter => "ENTRY: Function parameter (potentially user-controlled)"@,
        SourceView::Derived => "FLOW: Variable derivation"@,
        _ => "FLOW: Data transformation"@,
    }
}

/// The code of the row for `def`: its source line, trimmed, or a snippet
/// made up where the definition has no line.
pub open spec fn row_code(def: DefinitionView, source: Seq<char>) -> Seq<char> {
    if def.line > 0 {
        trimmed_line(source, (def.line - 1) as nat)
    } else {
        def.name + " = ..."@
    }
}

/// The row for `def`.
pub open spec fn row_of(def: DefinitionView, source: Seq<char>) -> PathNodeView {
    PathNodeView { line: def.line, code: row_code(def, source), description: describe(def.value_source) }
}

/// Row `k` of `rows` stands on `line`.
pub open spec fn row_on(rows: Seq<PathNodeView>, k: int, line: usize) -> bool {
    0 <= k < rows.len() && rows[k].line == line
}

/// Some row of `rows` stands on `line`.
pub open spec fn has_line(rows: Seq<PathNodeView>, line: usize) -> bool {
    exists|k: int| row_on(rows, k, line)
}

/// The walk after standing on `def`: the definition is marked, and it gets a
/// row unless a row stands on its line already.
pub open spec fn visit(w: Walk, def: DefinitionView, source: Seq<char>) -> Walk {
    Walk {
        visited: w.visited.push((def.name, def.line)),
        rows: if has_line(w.rows, def.line) {
            w.rows
        } else {
            w.rows.push(row_of(def, source))
        },
    }
}

/// The walk after tracing the definitions of `name` from definition `i` on:
/// each one not yet marked is stood on, and then its tainted dependencies
/// are traced in turn, `depth` levels deep at most.
pub open spec fn trace_definitions(
    defs: Seq<DefinitionView>,
    seeds: Seq<Seq<char>>,
    source: Seq<char>,
    name: Seq<char>,
    i: int,
    depth: nat,
    w: Walk,
) -> Walk
    decreases depth, 1int, defs.len() - i,
{
    if i < 0 || i >= defs.len() {
        w
    } else if defs[i].name != name || w.visited.contains((name, defs[i].line)) {
        trace_definitions(defs, seeds, source, name, i + 1, depth, w)
    } else {
        let stood = visit(w, defs[i], source);
        let deeper = if depth == 0 {
            stood
        } else {
            trace_dependencies(
                defs,
                seeds,
                source,
                defs[i].dependencies,
                0,
                (depth - 1) as nat,
                stood,
            )
        };
        trace_definitions(defs, seeds, source, name, i + 1, depth, deeper)
    }
}

/// The walk after tracing, from the `j`-th on, those of `deps` that are
/// tainted.
pub open spec fn trace_dependencies(
    defs: Seq<DefinitionView>,
    seeds: Seq<Seq<char>>,
    source: Seq<char>,
    deps: Seq<Seq<char>>,
    j: int,
    depth: nat,
    w: Walk,
) -> Walk
    decreases depth, 2int, deps.len() - j,
{
    if j < 0 || j >= deps.len() {
        w
    } else if tainted(defs, seeds, deps[j]) {
        trace_dependencies(
            defs,
            seeds,
            source,
            deps,
            j + 1,
            depth,
            trace_definitions(defs, seeds, source, deps[j], 0, depth, w),
        )
    } else {
        trace_dependencies(defs, seeds, source, deps, j + 1, depth, w)
    }
}

/// The row that stands for the sink itself.
pub open spec fn sink_row(sink: SinkView) -> PathNodeView {
    PathNodeView {
        line: sink.line,
        code: sink.code_snippet,
        description: "SINK: "@ + sink.sink_type.description_text(),
    }
}

/// The least index at or after `i` of a tainted name of `vars`, or the
/// length of `vars`.
pub open spec fn first_tainted_from(
    defs: Seq<DefinitionView>,
    seeds: Seq<Seq<char>>,
    vars: Seq<Seq<char>>,
    i: int,
) -> int
    decreases vars.len() - i,
{
    if i < 0 || i >= vars.len() {
        vars.len() as int
    } else if tainted(defs, seeds, vars[i]) {
        i
    } else {
        first_tainted_from(defs, seeds, vars, i + 1)
    }
}

/// The walk that an attack path starts from: no mark, and the row of the
/// sink.
pub open spec fn first_walk(sink: SinkView) -> Walk {
    Walk { visited: Seq::empty(), rows: seq![sink_row(sink)] }
}

/// The walk after the first `n` of `vars`: each of them that is tainted is
/// traced in turn, as deep as there are definitions, and the traces share
/// their marks and their rows.
pub open spec fn trace_names(
    defs: Seq<DefinitionView>,
    seeds: Seq<Seq<char>>,
    source: Seq<char>,
    vars: Seq<Seq<char>>,
    n: int,
    w: Walk,
) -> Walk
    decreases n,
{
    if n <= 0 {
        w
    } else if tainted(defs, seeds, vars[n - 1]) {
        trace_definitions(
            defs,
            seeds,
            source,
            vars[n - 1],
            0,
            defs.len(),
            trace_names(defs, seeds, source, vars, n - 1, w),
        )
    } else {
        trace_names(defs, seeds, source, vars, n - 1, w)
    }
}

/// The attack path of `sink`: the row of the sink, then the rows of the
/// traces of every tainted name that feeds it, in order; none where no name
/// that feeds it is tainted.
pub open spec fn trace_of(
    defs: Seq<DefinitionView>,
    seeds: Seq<Seq<char>>,
    sink: SinkView,
    source: Seq<char>,
) -> Option<Seq<PathNodeView>> {
    if first_tainted_from(defs, seeds, sink.tainted_vars, 0) < sink.tainted_vars.len() {
        Some(
            trace_names(
                defs,
                seeds,
                source,
                sink.tainted_vars,
                sink.tainted_vars.len() as int,
                first_walk(sink),
            ).rows,
        )
    } else {
        None
    }
}

/// A trace stands on no definition twice: where no pair of name and line is
/// marked twice before it, none is after it.
pub proof fn lemma_trace_visits_once(
    defs: Seq<DefinitionView>,
    seeds: Seq<Seq<char>>,
    source: Seq<char>,
    name: Seq<char>,
    i: int,
    depth: nat,
    w: Walk,
)
    requires
        w.visited.no_duplicates(),
    ensures
        trace_definitions(defs, seeds, source, name, i, depth, w).visited.no_duplicates(),
    decreases depth, 1int, defs.len() - i,
{
    if i < 0 || i >= defs.len() {
    } else if defs[i].name != name || w.visited.contains((name, defs[i].line)) {
        lemma_trace_visits_once(defs, seeds, source, name, i + 1, depth, w);
    } else {
        let stood = visit(w, defs[i], source);
        let deeper = if depth == 0 {
            stood
        } else {
            trace_dependencies(defs, seeds, source, defs[i].dependencies, 0, (depth - 1) as nat, stood)
        };
        if depth != 0 {
            lemma_trace_of_dependencies_visits_once(
                defs,
                seeds,
                source,
                defs[i].dependencies,
                0,
                (depth - 1) as nat,
                stood,
            );
        }
        lemma_trace_visits_once(defs, seeds, source, name, i + 1, depth, deeper);
    }
}

/// The trace of dependencies stands on no definition twice.
pub proof fn lemma_trace_of_dependencies_visits_once(
    defs: Seq<DefinitionView>,
    seeds: Seq<Seq<char>>,
    source: Seq<char>,
    deps: Seq<Seq<char>>,
    j: int,
    depth: nat,
    w: Walk,
)
    requires
        w.visited.no_duplicates(),
    ensures
        trace_dependencies(defs, seeds, source, deps, j, depth, w).visited.no_duplicates(),
    decreases depth, 2int, deps.len() - j,
{
    if j < 0 || j >= deps.len() {
    } else if tainted(defs, seeds, deps[j]) {
        lemma_trace_visits_once(defs, seeds, source, deps[j], 0, depth, w);
        lemma_trace_of_dependencies_visits_once(
            defs,
            seeds,
            source,
            deps,
            j + 1,
            depth,
            trace_definitions(defs, seeds, source, deps[j], 0, depth, w),
        );
    } else {
        lemma_trace_of_dependencies_visits_once(defs, seeds, source, deps, j + 1, depth, w);
    }
}

/// Whether every row of `rows` stands on a line that is at least 1.
pub open spec fn rows_positive(rows: Seq<PathNodeView>) -> bool {
    forall|k: int| 0 <= k < rows.len() ==> (#[trigger] rows[k]).line >= 1
}

/// A trace over definitions on lines that are at least 1 writes rows on
/// such lines only.
pub proof fn lemma_trace_rows_positive(
    defs: Seq<DefinitionView>,
    seeds: Seq<Seq<char>>,
    source: Seq<char>,
    name: Seq<char>,
    i: int,
    depth: nat,
    w: Walk,
)
    requires
        lines_positive(defs),
        rows_positive(w.rows),
    ensures
        rows_positive(trace_definitions(defs, seeds, source, name, i, depth, w).rows),
    decreases depth, 1int, defs.len() - i,
{
    if i < 0 || i >= defs.len() {
    } else if defs[i].name != name || w.visited.contains((name, defs[i].line)) {
        lemma_trace_rows_positive(defs, seeds, source, name, i + 1, depth, w);
    } else {
        let stood = visit(w, defs[i], source);
        let deeper = if depth == 0 {
            stood
        } else {
            trace_dependencies(defs, seeds, source, defs[i].dependencies, 0, (depth - 1) as nat, stood)
        };
        if depth != 0 {
            lemma_trace_of_dependencies_rows_positive(
                defs,
                seeds,
                source,
                defs[i].dependencies,
                0,
                (depth - 1) as nat,
                stood,
            );
        }
        lemma_trace_rows_positive(defs, seeds, source, name, i + 1, depth, deeper);
    }
}

/// The same for the trace of dependencies.
pub proof fn lemma_trace_of_dependencies_rows_positive(
    defs: Seq<DefinitionView>,
    seeds: Seq<Seq<char>>,
    source: Seq<char>,
    deps: Seq<Seq<char>>,
    j: int,
    depth: nat,
    w: Walk,
)
    requires
        lines_positive(defs),
        rows_positive(w.rows),
    ensures
        rows_positive(trace_dependencies(defs, seeds, source, deps, j, depth, w).rows),
    decreases depth, 2int, deps.len() - j,
{
    if j < 0 || j >= deps.len() {
    } else if tainted(defs, seeds, deps[j]) {
        lemma_trace_rows_positive(defs, seeds, source, deps[j], 0, depth, w);
        lemma_trace_of_dependencies_rows_positive(
            defs,
            seeds,
            source,
            deps,
            j + 1,
            depth,
            trace_definitions(defs, seeds, source, deps[j], 0, depth, w),
        );
    } else {
        lemma_trace_of_dependencies_rows_positive(defs, seeds, source, deps, j + 1, depth, w);
    }
}

/// Whether no two rows of `rows` stand on the same line.
pub open spec fn lines_distinct(rows: Seq<PathNodeView>) -> bool {
    forall|a: int, b: int|
        0 <= a < rows.len() && 0 <= b < rows.len() && a != b ==> (#[trigger] rows[a]).line != (
        #[trigger] rows[b]).line
}

/// A trace writes no second row for a line: where no two rows stand on the
/// same line before it, none do after it.
pub proof fn lemma_trace_rows_distinct(
    defs: Seq<DefinitionView>,
    seeds: Seq<Seq<char>>,
    source: Seq<char>,
    name: Seq<char>,
    i: int,
    depth: nat,
    w: Walk,
)
    requires
        lines_distinct(w.rows),
    ensures
        lines_distinct(trace_definitions(defs, seeds, source, name, i, depth, w).rows),
    decreases depth, 1int, defs.len() - i,
{
    if i < 0 || i >= defs.len() {
    } else if defs[i].name != name || w.visited.contains((name, defs[i].line)) {
        lemma_trace_rows_distinct(defs, seeds, source, name, i + 1, depth, w);
    } else {
        let stood = visit(w, defs[i], source);
        assert(lines_distinct(stood.rows)) by {
            if !has_line(w.rows, defs[i].line) {
                assert forall|a: int, b: int|
                    0 <= a < stood.rows.len() && 0 <= b < stood.rows.len() && a != b implies (
                #[trigger] stood.rows[a]).line != (#[trigger] stood.rows[b]).line by {
                    if a < w.rows.len() && b < w.rows.len() {
                    } else if a < w.rows.len() {
                        assert(!row_on(w.rows, a, defs[i].line));
                    } else {
                        assert(!row_on(w.rows, b, defs[i].line));
                    }
                }
            }
        }
        let deeper = if depth == 0 {
            stood
        } else {
            trace_dependencies(defs, seeds, source, defs[i].dependencies, 0, (depth - 1) as nat, stood)
        };
        if depth != 0 {
            lemma_trace_of_dependencies_rows_distinct(
                defs,
                seeds,
                source,
                defs[i].dependencies,
                0,
                (depth - 1) as nat,
                stood,
            );
        }
        lemma_trace_rows_distinct(defs, seeds, source, name, i + 1, depth, deeper);
    }
}

/// The same for the trace of dependencies.
pub proof fn lemma_trace_of_dependencies_rows_distinct(
    defs: Seq<DefinitionView>,
    seeds: Seq<Seq<char>>,
    source: Seq<char>,
    deps: Seq<Seq<char>>,
    j: int,
    depth: nat,
    w: Walk,
)
    requires
        lines_distinct(w.rows),
    ensures
        lines_distinct(trace_dependencies(defs, seeds, source, deps, j, depth, w).rows),
    decreases depth, 2int, deps.len() - j,
{
    if j < 0 || j >= deps.len() {
    } else if tainted(defs, seeds, deps[j]) {
        lemma_trace_rows_distinct(defs, seeds, source, deps[j], 0, depth, w);
        lemma_trace_of_dependencies_rows_distinct(
            defs,
            seeds,
            source,
            deps,
            j + 1,
            depth,
            trace_definitions(defs, seeds, source, deps[j], 0, depth, w),
        );
    } else {
        lemma_trace_of_dependencies_rows_distinct(defs, seeds, source, deps, j + 1, depth, w);
    }
}

/// No two rows of an attack path stand on the same line.
pub proof fn lemma_path_lines_distinct(
    defs: Seq<DefinitionView>,
    seeds: Seq<Seq<char>>,
    sink: SinkView,
    source: Seq<char>,
)
    ensures
        trace_of(defs, seeds, sink, source) matches Some(path) ==> lines_distinct(path),
{
    lemma_names_rows_distinct(
        defs,
        seeds,
        source,
        sink.tainted_vars,
        sink.tainted_vars.len() as int,
        first_walk(sink),
    );
}

proof fn lemma_names_rows_distinct(
    defs: Seq<DefinitionView>,
    seeds: Seq<Seq<char>>,
    source: Seq<char>,
    vars: Seq<Seq<char>>,
    n: int,
    w: Walk,
)
    requires
        lines_distinct(w.rows),
    ensures
        lines_distinct(trace_names(defs, seeds, source, vars, n, w).rows),
    decreases n,
{
    if n > 0 {
        lemma_names_rows_distinct(defs, seeds, source, vars, n - 1, w);
        lemma_trace_rows_distinct(
            defs,
            seeds,
            source,
            vars[n - 1],
            0,
            defs.len(),
            trace_names(defs, seeds, source, vars, n - 1, w),
        );
    }
}

proof fn lemma_names_rows_positive(
    defs: Seq<DefinitionView>,
    seeds: Seq<Seq<char>>,
    source: Seq<char>,
    vars: Seq<Seq<char>>,
    n: int,
    w: Walk,
)
    requires
        lines_positive(defs),
        rows_positive(w.rows),
    ensures
        rows_positive(trace_names(defs, seeds, source, vars, n, w).rows),
        rows_kept(w.rows, trace_names(defs, seeds, source, vars, n, w).rows),
    decreases n,
{
    if n > 0 {
        lemma_names_rows_positive(defs, seeds, source, vars, n - 1, w);
        let before = trace_names(defs, seeds, source, vars, n - 1, w);
        lemma_trace_rows_positive(defs, seeds, source, vars[n - 1], 0, defs.len(), before);
        lemma_trace_keeps_rows(defs, seeds, source, vars[n - 1], 0, defs.len(), before);
    }
}

proof fn lemma_names_keep_rows(
    defs: Seq<DefinitionView>,
    seeds: Seq<Seq<char>>,
    source: Seq<char>,
    vars: Seq<Seq<char>>,
    n: int,
    w: Walk,
)
    ensures
        rows_kept(w.rows, trace_names(defs, seeds, source, vars, n, w).rows),
    decreases n,
{
    if n > 0 {
        lemma_names_keep_rows(defs, seeds, source, vars, n - 1, w);
        let before = trace_names(defs, seeds, source, vars, n - 1, w);
        lemma_trace_keeps_rows(defs, seeds, source, vars[n - 1], 0, defs.len(), before);
    }
}

proof fn lemma_names_visit_once(
    defs: Seq<DefinitionView>,
    seeds: Seq<Seq<char>>,
    source: Seq<char>,
    vars: Seq<Seq<char>>,
    n: int,
    w: Walk,
)
    requires
        w.visited.no_duplicates(),
    ensures
        trace_names(defs, seeds, source, vars, n, w).visited.no_duplicates(),
        weight(defs, trace_names(defs, seeds, source, vars, n, w)) <= weight(defs, w),
    decreases n,
{
    if n > 0 {
        lemma_names_visit_once(defs, seeds, source, vars, n - 1, w);
        let before = trace_names(defs, seeds, source, vars, n - 1, w);
        lemma_trace_visits_once(defs, seeds, source, vars[n - 1], 0, defs.len(), before);
        lemma_trace_weight(defs, seeds, source, vars[n - 1], 0, defs.len(), before);
    }
}

/// The traces of the names that feed a sink stand on no definition twice,
/// whatever names they share and whatever cycles the definitions hold; and
/// the path has at most one row more than there are definitions.
pub proof fn lemma_path_visits_once(
    defs: Seq<DefinitionView>,
    seeds: Seq<Seq<char>>,
    sink: SinkView,
    source: Seq<char>,
)
    ensures
        trace_names(
            defs,
            seeds,
            source,
            sink.tainted_vars,
            sink.tainted_vars.len() as int,
            first_walk(sink),
        ).visited.no_duplicates(),
        trace_of(defs, seeds, sink, source) matches Some(path) ==> 1 <= path.len() <= 1
            + defs.len(),
{
    lemma_names_keep_rows(
        defs,
        seeds,
        source,
        sink.tainted_vars,
        sink.tainted_vars.len() as int,
        first_walk(sink),
    );
    lemma_names_visit_once(
        defs,
        seeds,
        source,
        sink.tainted_vars,
        sink.tainted_vars.len() as int,
        first_walk(sink),
    );
    lemma_more_marks_fewer_unvisited(
        defs,
        first_walk(sink).visited,
        first_walk(sink).visited,
        defs.len() as int,
    );
}

/// The rows of a walk, and the definitions it has not marked.
pub open spec fn weight(defs: Seq<DefinitionView>, w: Walk) -> nat {
    w.rows.len() + unvisited(defs, w.visited, defs.len() as int)
}

/// A trace writes at most one row for each definition it marks.
pub proof fn lemma_trace_weight(
    defs: Seq<DefinitionView>,
    seeds: Seq<Seq<char>>,
    source: Seq<char>,
    name: Seq<char>,
    i: int,
    depth: nat,
    w: Walk,
)
    ensures
        weight(defs, trace_definitions(defs, seeds, source, name, i, depth, w)) <= weight(defs, w),
    decreases depth, 1int, defs.len() - i,
{
    if i < 0 || i >= defs.len() {
    } else if defs[i].name != name || w.visited.contains((name, defs[i].line)) {
        lemma_trace_weight(defs, seeds, source, name, i + 1, depth, w);
    } else {
        let stood = visit(w, defs[i], source);
        lemma_mark_counts(defs, w.visited, i, defs.len() as int);
        assert(weight(defs, stood) <= weight(defs, w));
        let deeper = if depth == 0 {
            stood
        } else {
            trace_dependencies(defs, seeds, source, defs[i].dependencies, 0, (depth - 1) as nat, stood)
        };
        if depth != 0 {
            lemma_trace_of_dependencies_weight(
                defs,
                seeds,
                source,
                defs[i].dependencies,
                0,
                (depth - 1) as nat,
                stood,
            );
        }
        lemma_trace_weight(defs, seeds, source, name, i + 1, depth, deeper);
    }
}

/// The same for the trace of dependencies.
pub proof fn lemma_trace_of_dependencies_weight(
    defs: Seq<DefinitionView>,
    seeds: Seq<Seq<char>>,
    source: Seq<char>,
    deps: Seq<Seq<char>>,
    j: int,
    depth: nat,
    w: Walk,
)
    ensures
        weight(defs, trace_dependencies(defs, seeds, source, deps, j, depth, w)) <= weight(defs, w),
    decreases depth, 2int, deps.len() - j,
{
    if j < 0 || j >= deps.len() {
    } else if tainted(defs, seeds, deps[j]) {
        lemma_trace_weight(defs, seeds, source, deps[j], 0, depth, w);
        lemma_trace_of_dependencies_weight(
            defs,
            seeds,
            source,
            deps,
            j + 1,
            depth,
            trace_definitions(defs, seeds, source, deps[j], 0, depth, w),
        );
    } else {
        lemma_trace_of_dependencies_weight(defs, seeds, source, deps, j + 1, depth, w);
    }
}

/// Every row of an attack path stands on a line that is at least 1, where
/// the sink and the definitions do; and the first row is the sink's.
pub proof fn lemma_path_lines_positive(
    defs: Seq<DefinitionView>,
    seeds: Seq<Seq<char>>,
    sink: SinkView,
    source: Seq<char>,
)
    requires
        lines_positive(defs),
        sink.line >= 1,
    ensures
        trace_of(defs, seeds, sink, source) matches Some(path) ==> rows_positive(path)
            && path.len() >= 1 && path[0] == sink_row(sink),
{
    lemma_names_rows_positive(
        defs,
        seeds,
        source,
        sink.tainted_vars,
        sink.tainted_vars.len() as int,
        first_walk(sink),
    );
}

/// Whether `before` is the beginning of `after`.
pub open spec fn rows_kept(before: Seq<PathNodeView>, after: Seq<PathNodeView>) -> bool {
    before.len() <= after.len() && forall|k: int|
        0 <= k < before.len() ==> #[trigger] after[k] == before[k]
}

/// A trace writes its rows behind those it finds.
pub proof fn lemma_trace_keeps_rows(
    defs: Seq<DefinitionView>,
    seeds: Seq<Seq<char>>,
    source: Seq<char>,
    name: Seq<char>,
    i: int,
    depth: nat,
    w: Walk,
)
    ensures
        rows_kept(w.rows, trace_definitions(defs, seeds, source, name, i, depth, w).rows),
    decreases depth, 1int, defs.len() - i,
{
    if i < 0 || i >= defs.len() {
    } else if defs[i].name != name || w.visited.contains((name, defs[i].line)) {
        lemma_trace_keeps_rows(defs, seeds, source, name, i + 1, depth, w);
    } else {
        let stood = visit(w, defs[i], source);
        let deeper = if depth == 0 {
            stood
        } else {
            trace_dependencies(defs, seeds, source, defs[i].dependencies, 0, (depth - 1) as nat, stood)
        };
        if depth != 0 {
            lemma_trace_of_dependencies_keeps_rows(
                defs,
                seeds,
                source,
                defs[i].dependencies,
                0,
                (depth - 1) as nat,
                stood,
            );
        }
        lemma_trace_keeps_rows(defs, seeds, source, name, i + 1, depth, deeper);
    }
}

/// The same for the trace of dependencies.
pub proof fn lemma_trace_of_dependencies_keeps_rows(
    defs: Seq<DefinitionView>,
    seeds: Seq<Seq<char>>,
    source: Seq<char>,
    deps: Seq<Seq<char>>,
    j: int,
    depth: nat,
    w: Walk,
)
    ensures
        rows_kept(w.rows, trace_dependencies(defs, seeds, source, deps, j, depth, w).rows),
    decreases depth, 2int, deps.len() - j,
{
    if j < 0 || j >= deps.len() {
    } else if tainted(defs, seeds, deps[j]) {
        let next = trace_definitions(defs, seeds, source, deps[j], 0, depth, w);
        lemma_trace_keeps_rows(defs, seeds, source, deps[j], 0, depth, w);
        lemma_trace_of_dependencies_keeps_rows(defs, seeds, source, deps, j + 1, depth, next);
    } else {
        lemma_trace_of_dependencies_keeps_rows(defs, seeds, source, deps, j + 1, depth, w);
    }
}

/// How many of the first `n` definitions are not marked in `visited`.
pub open spec fn unvisited(defs: Seq<DefinitionView>, visited: Seq<(Seq<char>, usize)>, n: int) -> nat
    decreases n,
{
    if n <= 0 {
        0
    } else {
        unvisited(defs, visited, n - 1) + if visited.contains((defs[n - 1].name, defs[n - 1].line)) {
            0nat
        } else {
            1nat
        }
    }
}

/// Every mark of `before` is a mark of `after`.
pub open spec fn marks_kept(before: Seq<(Seq<char>, usize)>, after: Seq<(Seq<char>, usize)>) -> bool {
    forall|p: (Seq<char>, usize)| #[trigger] before.contains(p) ==> after.contains(p)
}

/// A trace keeps every mark it finds.
pub proof fn lemma_trace_keeps_marks(
    defs: Seq<DefinitionView>,
    seeds: Seq<Seq<char>>,
    source: Seq<char>,
    name: Seq<char>,
    i: int,
    depth: nat,
    w: Walk,
)
    ensures
        marks_kept(
            w.visited,
            trace_definitions(defs, seeds, source, name, i, depth, w).visited,
        ),
    decreases depth, 1int, defs.len() - i,
{
    if i < 0 || i >= defs.len() {
    } else if defs[i].name != name || w.visited.contains((name, defs[i].line)) {
        lemma_trace_keeps_marks(defs, seeds, source, name, i + 1, depth, w);
    } else {
        let stood = visit(w, defs[i], source);
        assert(marks_kept(w.visited, stood.visited)) by {
            lemma_push_keeps(w.visited, (defs[i].name, defs[i].line));
        }
        let deeper = if depth == 0 {
            stood
        } else {
            trace_dependencies(defs, seeds, source, defs[i].dependencies, 0, (depth - 1) as nat, stood)
        };
        if depth != 0 {
            lemma_trace_of_dependencies_keeps_marks(
                defs,
                seeds,
                source,
                defs[i].dependencies,
                0,
                (depth - 1) as nat,
                stood,
            );
        }
        lemma_trace_keeps_marks(defs, seeds, source, name, i + 1, depth, deeper);
    }
}

/// The trace of dependencies keeps every mark it finds.
pub proof fn lemma_trace_of_dependencies_keeps_marks(
    defs: Seq<DefinitionView>,
    seeds: Seq<Seq<char>>,
    source: Seq<char>,
    deps: Seq<Seq<char>>,
    j: int,
    depth: nat,
    w: Walk,
)
    ensures
        marks_kept(
            w.visited,
            trace_dependencies(defs, seeds, source, deps, j, depth, w).visited,
        ),
    decreases depth, 2int, deps.len() - j,
{
    if j < 0 || j >= deps.len() {
    } else if tainted(defs, seeds, deps[j]) {
        let next = trace_definitions(defs, seeds, source, deps[j], 0, depth, w);
        lemma_trace_keeps_marks(defs, seeds, source, deps[j], 0, depth, w);
        lemma_trace_of_dependencies_keeps_marks(defs, seeds, source, deps, j + 1, depth, next);
    } else {
        lemma_trace_of_dependencies_keeps_marks(defs, seeds, source, deps, j + 1, depth, w);
    }
}

proof fn lemma_more_marks_fewer_unvisited(
    defs: Seq<DefinitionView>,
    fewer: Seq<(Seq<char>, usize)>,
    more: Seq<(Seq<char>, usize)>,
    n: int,
)
    requires
        marks_kept(fewer, more),
        n <= defs.len(),
    ensures
        unvisited(defs, more, n) <= unvisited(defs, fewer, n),
        n >= 0 ==> unvisited(defs, fewer, n) <= n,
    decreases n,
{
    if n > 0 {
        lemma_more_marks_fewer_unvisited(defs, fewer, more, n - 1);
    }
}

proof fn lemma_mark_counts(
    defs: Seq<DefinitionView>,
    visited: Seq<(Seq<char>, usize)>,
    i: int,
    n: int,
)
    requires
        0 <= i < n <= defs.len(),
        !visited.contains((defs[i].name, defs[i].line)),
    ensures
        unvisited(defs, visited.push((defs[i].name, defs[i].line)), n) < unvisited(
            defs,
            visited,
            n,
        ),
    decreases n,
{
    let pair = (defs[i].name, defs[i].line);
    lemma_push_keeps(visited, pair);
    if i < n - 1 {
        lemma_mark_counts(defs, visited, i, n - 1);
    } else {
        lemma_more_marks_fewer_unvisited(defs, visited, visited.push(pair), n - 1);
    }
}

/// A depth that is no less than the number of definitions not yet marked is
/// ample: the trace is the same at any two such depths.
pub proof fn lemma_depth_is_ample(
    defs: Seq<DefinitionView>,
    seeds: Seq<Seq<char>>,
    source: Seq<char>,
    name: Seq<char>,
    i: int,
    first: nat,
    second: nat,
    w: Walk,
)
    requires
        first >= unvisited(defs, w.visited, defs.len() as int),
        second >= unvisited(defs, w.visited, defs.len() as int),
    ensures
        trace_definitions(defs, seeds, source, name, i, first, w) == trace_definitions(
            defs,
            seeds,
            source,
            name,
            i,
            second,
            w,
        ),
    decreases unvisited(defs, w.visited, defs.len() as int), 1int, defs.len() - i,
{
    let all = defs.len() as int;
    if i < 0 || i >= defs.len() {
    } else if defs[i].name != name || w.visited.contains((name, defs[i].line)) {
        lemma_depth_is_ample(defs, seeds, source, name, i + 1, first, second, w);
    } else {
        let stood = visit(w, defs[i], source);
        lemma_mark_counts(defs, w.visited, i, all);
        let one = (first - 1) as nat;
        let two = (second - 1) as nat;
        lemma_depth_of_dependencies_is_ample(
            defs,
            seeds,
            source,
            defs[i].dependencies,
            0,
            one,
            two,
            stood,
        );
        let deeper = trace_dependencies(defs, seeds, source, defs[i].dependencies, 0, one, stood);
        lemma_trace_of_dependencies_keeps_marks(
            defs,
            seeds,
            source,
            defs[i].dependencies,
            0,
            one,
            stood,
        );
        lemma_more_marks_fewer_unvisited(defs, stood.visited, deeper.visited, all);
        lemma_depth_is_ample(defs, seeds, source, name, i + 1, first, second, deeper);
    }
}

/// The same for the trace of dependencies.
pub proof fn lemma_depth_of_dependencies_is_ample(
    defs: Seq<DefinitionView>,
    seeds: Seq<Seq<char>>,
    source: Seq<char>,
    deps: Seq<Seq<char>>,
    j: int,
    first: nat,
    second: nat,
    w: Walk,
)
    requires
        first >= unvisited(defs, w.visited, defs.len() as int),
        second >= unvisited(defs, w.visited, defs.len() as int),
    ensures
        trace_dependencies(defs, seeds, source, deps, j, first, w) == trace_dependencies(
            defs,
            seeds,
            source,
            deps,
            j,
            second,
            w,
        ),
    decreases unvisited(defs, w.visited, defs.len() as int), 2int, deps.len() - j,
{
    let all = defs.len() as int;
    if j < 0 || j >= deps.len() {
    } else if tainted(defs, seeds, deps[j]) {
        lemma_depth_is_ample(defs, seeds, source, deps[j], 0, first, second, w);
        let next = trace_definitions(defs, seeds, source, deps[j], 0, first, w);
        lemma_trace_keeps_marks(defs, seeds, source, deps[j], 0, first, w);
        lemma_more_marks_fewer_unvisited(defs, w.visited, next.visited, all);
        lemma_depth_of_dependencies_is_ample(defs, seeds, source, deps, j + 1, first, second, next);
    } else {
        lemma_depth_of_dependencies_is_ample(defs, seeds, source, deps, j + 1, first, second, w);
    }
}

/// The bound on the depth of a trace never cuts it short: a trace as deep as
/// there are definitions is the trace at any greater depth.
pub proof fn lemma_trace_is_never_cut_short(
    defs: Seq<DefinitionView>,
    seeds: Seq<Seq<char>>,
    source: Seq<char>,
    name: Seq<char>,
    depth: nat,
    w: Walk,
)
    requires
        depth >= defs.len(),
    ensures
        trace_definitions(defs, seeds, source, name, 0, depth, w) == trace_definitions(
            defs,
            seeds,
            source,
            name,
            0,
            defs.len(),
            w,
        ),
{
    lemma_more_marks_fewer_unvisited(defs, w.visited, w.visited, defs.len() as int);
    lemma_depth_is_ample(defs, seeds, source, name, 0, depth, defs.len(), w);
}

/// The pairs of name and line, with the names as sequences of characters.
pub open spec fn pair_views(pairs: Seq<(String, usize)>) -> Seq<(Seq<char>, usize)> {
    pairs.map_values(|p: (String, usize)| (p.0@, p.1))
}

/// The walk that `visited` and `path` stand for.
pub open spec fn walk_of(visited: Seq<(String, usize)>, path: Seq<PathNode>) -> Walk {
    Walk { visited: pair_views(visited), rows: path_views(path) }
}

fn was_visited(visited: &Vec<(String, usize)>, name: &str, line: usize) -> (r: bool)
    ensures
        r == pair_views(visited@).contains((name@, line)),
{
    let mut k: usize = 0;
    while k < visited.len()
        invariant
            k <= visited.len(),
            forall|m: int| 0 <= m < k ==> pair_views(visited@)[m] != (name@, line),
        decreases visited.len() - k,
    {
        if visited[k].1 == line && same_text(visited[k].0.as_str(), name) {
            assert(pair_views(visited@)[k as int] == (name@, line));
            return true;
        }
        k += 1;
    }
    false
}

fn path_has_line(path: &Vec<PathNode>, line: usize) -> (r: bool)
    ensures
        r == has_line(path_views(path@), line),
{
    let mut k: usize = 0;
    while k < path.len()
        invariant
            k <= path.len(),
            forall|m: int| 0 <= m < k ==> !row_on(path_views(path@), m, line),
        decreases path.len() - k,
    {
        if path[k].line == line {
            assert(row_on(path_views(path@), k as int, line));
            return true;
        }
        k += 1;
    }
    false
}

fn description_of(source: &ValueSource) -> (r: String)
    ensures
        r@ == describe(source@),
{
    match source {
        ValueSource::UserInput(pattern) => join2("ENTRY: User input from ", pattern.as_str()),
        ValueSource::Parameter => "ENTRY: Function parameter (potentially user-controlled)".to_owned(),
        ValueSource::Derived => "FLOW: Variable derivation".to_owned(),
        _ => "FLOW: Data transformation".to_owned(),
    }
}

fn code_of(def: &VariableDefinition, source: &str) -> (r: String)
    ensures
        r@ == row_code(def@, source@),
{
    if def.line > 0 {
        line_at(source, def.line - 1)
    } else {
        join2(def.name.as_str(), " = ...")
    }
}

/// Stands on `def`: marks it, and writes its row unless a row stands on its
/// line already.
fn stand_on(
    def: &VariableDefinition,
    source: &str,
    visited: &mut Vec<(String, usize)>,
    path: &mut Vec<PathNode>,
)
    ensures
        walk_of(final(visited)@, final(path)@) == visit(
            walk_of(old(visited)@, old(path)@),
            def@,
            source@,
        ),
{
    let pair = (def.name.clone(), def.line);
    proof {
        assert(pair_views(visited@.push(pair)) =~= pair_views(visited@).push((def@.name, def@.line)));
    }
    visited.push(pair);
    if !path_has_line(path, def.line) {
        let row = PathNode {
            line: def.line,
            code: code_of(def, source),
            description: description_of(&def.value_source),
        };
        proof {
            lemma_views_push(path@, row);
        }
        path.push(row);
    }
}

/// Traces the definitions of `name`: see `trace_definitions`.
pub fn build_trace_recursive(
    defs: &Vec<VariableDefinition>,
    seeds: &Vec<String>,
    source: &str,
    name: &str,
    depth: usize,
    visited: &mut Vec<(String, usize)>,
    path: &mut Vec<PathNode>,
)
    ensures
        walk_of(final(visited)@, final(path)@) == trace_definitions(
            def_views(defs@),
            names(seeds@),
            source@,
            name@,
            0,
            depth as nat,
            walk_of(old(visited)@, old(path)@),
        ),
    decreases depth, 1int,
{
    let ghost dv = def_views(defs@);
    let ghost sv = names(seeds@);
    let ghost goal = trace_definitions(
        dv,
        sv,
        source@,
        name@,
        0,
        depth as nat,
        walk_of(visited@, path@),
    );
    let mut i: usize = 0;
    while i < defs.len()
        invariant
            i <= defs.len(),
            dv == def_views(defs@),
            sv == names(seeds@),
            goal == trace_definitions(
                dv,
                sv,
                source@,
                name@,
                i as int,
                depth as nat,
                walk_of(visited@, path@),
            ),
        decreases defs.len() - i,
    {
        let def = &defs[i];
        if same_text(def.name.as_str(), name) && !was_visited(visited, name, def.line) {
            stand_on(def, source, visited, path);
            if depth > 0 {
                trace_dependencies_of(defs, seeds, source, &def.dependencies, depth - 1, visited, path);
            }
        }
        i += 1;
    }
}

/// Traces those of `deps` that are tainted: see `trace_dependencies`.
fn trace_dependencies_of(
    defs: &Vec<VariableDefinition>,
    seeds: &Vec<String>,
    source: &str,
    deps: &Vec<String>,
    depth: usize,
    visited: &mut Vec<(String, usize)>,
    path: &mut Vec<PathNode>,
)
    ensures
        walk_of(final(visited)@, final(path)@) == trace_dependencies(
            def_views(defs@),
            names(seeds@),
            source@,
            names(deps@),
            0,
            depth as nat,
            walk_of(old(visited)@, old(path)@),
        ),
    decreases depth, 2int,
{
    let ghost dv = def_views(defs@);
    let ghost sv = names(seeds@);
    let ghost goal = trace_dependencies(
        dv,
        sv,
        source@,
        names(deps@),
        0,
        depth as nat,
        walk_of(visited@, path@),
    );
    let mut j: usize = 0;
    while j < deps.len()
        invariant
            j <= deps.len(),
            dv == def_views(defs@),
            sv == names(seeds@),
            goal == trace_dependencies(
                dv,
                sv,
                source@,
                names(deps@),
                j as int,
                depth as nat,
                walk_of(visited@, path@),
            ),
        decreases deps.len() - j,
    {
        let dep = &deps[j];
        if search_taint(defs, seeds, dep.as_str()) {
            build_trace_recursive(defs, seeds, source, dep.as_str(), depth, visited, path);
        }
        j += 1;
    }
}

/// `base`, and behind it, each once and in order, the names that the first
/// `n` definitions take from attacker input or bind as parameters.
pub open spec fn entry_seeds(base: Seq<Seq<char>>, defs: Seq<DefinitionView>, n: int) -> Seq<
    Seq<char>,
>
    decreases n,
{
    if n <= 0 {
        base
    } else {
        let before = entry_seeds(base, defs, n - 1);
        if is_entry(defs[n - 1].value_source) && !before.contains(defs[n - 1].name) {
            before.push(defs[n - 1].name)
        } else {
            before
        }
    }
}

/// `base` with the name `request`, which is always tainted.
pub open spec fn with_request(base: Seq<Seq<char>>) -> Seq<Seq<char>> {
    if base.contains("request"@) {
        base
    } else {
        base.push("request"@)
    }
}

/// The names that are tainted by themselves in a source whose definitions
/// are `defs`: `request`, and the names taken from attacker input or bound as
/// parameters.
pub open spec fn seeds_of(defs: Seq<DefinitionView>) -> Seq<Seq<char>> {
    entry_seeds(with_request(Seq::empty()), defs, defs.len() as int)
}

/// Definition `k` is one of the first `n` and makes `name` a name that an
/// attacker controls.
pub open spec fn entry_before(defs: Seq<DefinitionView>, n: int, k: int, name: Seq<char>) -> bool {
    k < n && entry_at(defs, k, name)
}

/// A name is among the seeds exactly when it was there before, or one of the
/// definitions takes it from attacker input or binds it as a parameter.
pub proof fn lemma_entry_seeds_hold(
    base: Seq<Seq<char>>,
    defs: Seq<DefinitionView>,
    n: int,
    name: Seq<char>,
)
    requires
        0 <= n <= defs.len(),
    ensures
        entry_seeds(base, defs, n).contains(name) <==> (base.contains(name) || exists|k: int|
            entry_before(defs, n, k, name)),
    decreases n,
{
    if n > 0 {
        let last: int = n - 1;
        lemma_entry_seeds_hold(base, defs, last, name);
        let before = entry_seeds(base, defs, last);
        let now = entry_seeds(base, defs, n);
        if now.contains(name) {
            if before.contains(name) {
                if !base.contains(name) {
                    let k = choose|k: int| entry_before(defs, last, k, name);
                    assert(entry_before(defs, n, k, name));
                }
            } else {
                assert(entry_before(defs, n, last, name));
            }
        }
        if base.contains(name) || exists|k: int| entry_before(defs, n, k, name) {
            if before.contains(name) {
                let m = choose|m: int| 0 <= m < before.len() && before[m] == name;
                assert(now[m] == name);
            } else {
                let k = choose|k: int| entry_before(defs, n, k, name);
                if k < last {
                    assert(entry_before(defs, last, k, name));
                }
                assert(now[before.len() as int] == name);
            }
        }
    }
}

/// The slicer: the definitions of a source, in source order, and the names
/// that are tainted by themselves.
pub struct BackwardSlicer {
    definitions: Vec<VariableDefinition>,
    tainted: Vec<String>,
    path: Vec<PathNode>,
}

impl BackwardSlicer {
    /// The definitions collected so far, in the order they were met.
    pub closed spec fn defs(&self) -> Seq<DefinitionView> {
        def_views(self.definitions@)
    }

    /// The names held as tainted by themselves.
    pub closed spec fn seeds(&self) -> Seq<Seq<char>> {
        names(self.tainted@)
    }

    /// The rows of the last trace.
    pub closed spec fn last_path(&self) -> Seq<PathNodeView> {
        path_views(self.path@)
    }

    /// A slicer that knows no definition and no tainted name.
    pub fn new() -> (r: Self)
        ensures
            r.defs() == Seq::<DefinitionView>::empty(),
            r.seeds() == Seq::<Seq<char>>::empty(),
            r.last_path() == Seq::<PathNodeView>::empty(),
    {
        let r = BackwardSlicer { definitions: Vec::new(), tainted: Vec::new(), path: Vec::new() };
        r
    }

    /// Whether `var_name` is tainted: whether a chain of derivations leads
    /// from it to a name that is tainted by itself. The answer is found in a
    /// bounded number of steps, whatever cycles the derivations hold.
    pub fn is_tainted(&self, var_name: &str) -> (r: bool)
        ensures
            r == tainted(self.defs(), self.seeds(), var_name@),
    {
        search_taint(&self.definitions, &self.tainted, var_name)
    }

    /// The definitions collected so far.
    pub fn definitions(&self) -> (r: &Vec<VariableDefinition>)
        ensures
            def_views(r@) == self.defs(),
    {
        &self.definitions
    }

    /// The names held as tainted by themselves.
    pub fn tainted_names(&self) -> (r: &Vec<String>)
        ensures
            names(r@) == self.seeds(),
    {
        &self.tainted
    }

    /// Whether some definition defines `name`.
    pub fn has_definition(&self, name: &str) -> (r: bool)
        ensures
            r == exists|i: int| 0 <= i < self.defs().len() && #[trigger] self.defs()[i].name == name@,
    {
        let mut i: usize = 0;
        while i < self.definitions.len()
            invariant
                i <= self.definitions.len(),
                forall|k: int| 0 <= k < i ==> (#[trigger] self.defs()[k]).name != name@,
            decreases self.definitions.len() - i,
        {
            if same_text(self.definitions[i].name.as_str(), name) {
                assert(self.defs()[i as int].name == name@);
                return true;
            }
            i += 1;
        }
        false
    }

    /// The names that are defined, each once, in the order of their first
    /// definition.
    pub fn defined_names(&self) -> (r: Vec<String>)
        ensures
            names(r@).no_duplicates(),
            forall|n: Seq<char>|
                names(r@).contains(n) <==> exists|i: int|
                    0 <= i < self.defs().len() && #[trigger] self.defs()[i].name == n,
    {
        let mut out: Vec<String> = Vec::new();
        let mut i: usize = 0;
        while i < self.definitions.len()
            invariant
                i <= self.definitions.len(),
                names(out@).no_duplicates(),
                forall|n: Seq<char>|
                    names(out@).contains(n) <==> exists|k: int|
                        0 <= k < i && #[trigger] self.defs()[k].name == n,
            decreases self.definitions.len() - i,
        {
            let name = &self.definitions[i].name;
            let ghost before = names(out@);
            assert(self.defs()[i as int].name == name@);
            if !is_one_of(name.as_str(), &out) {
                proof {
                    lemma_views_push(out@, *name);
                    assert(before.push(name@).no_duplicates());
                }
                out.push(name.clone());
            }
            proof {
                let now = names(out@);
                assert forall|n: Seq<char>| now.contains(n) <==> exists|k: int|
                    0 <= k < i + 1 && #[trigger] self.defs()[k].name == n by {
                    if now.contains(n) {
                        if before.contains(n) {
                            let k = choose|k: int| 0 <= k < i && #[trigger] self.defs()[k].name == n;
                            assert(0 <= k < i + 1 && self.defs()[k].name == n);
                        } else {
                            let m = choose|m: int| 0 <= m < now.len() && now[m] == n;
                            if m < before.len() {
                                assert(before[m] == n);
                            }
                            assert(n == name@);
                        }
                    }
                    if exists|k: int| 0 <= k < i + 1 && #[trigger] self.defs()[k].name == n {
                        let k = choose|k: int| 0 <= k < i + 1 && #[trigger] self.defs()[k].name == n;
                        if k < i {
                            assert(before.contains(n));
                            let m = choose|m: int| 0 <= m < before.len() && before[m] == n;
                            assert(now[m] == n);
                        } else {
                            if before.contains(name@) {
                                let m = choose|m: int| 0 <= m < before.len() && before[m] == name@;
                                assert(now[m] == n);
                            } else {
                                assert(now[before.len() as int] == n);
                            }
                        }
                    }
                }
            }
            i += 1;
        }
        out
    }

    /// Holds as tainted by itself every name that a definition takes from
    /// attacker input or binds as a parameter.
    pub fn identify_entry_points(&mut self)
        ensures
            final(self).defs() == old(self).defs(),
            final(self).last_path() == old(self).last_path(),
            final(self).seeds() == entry_seeds(
                old(self).seeds(),
                old(self).defs(),
                old(self).defs().len() as int,
            ),
    {
        let ghost base = names(self.tainted@);
        let ghost dv = def_views(self.definitions@);
        let mut i: usize = 0;
        while i < self.definitions.len()
            invariant
                i <= self.definitions.len(),
                dv == def_views(self.definitions@),
                self.definitions == old(self).definitions,
                self.path == old(self).path,
                names(self.tainted@) == entry_seeds(base, dv, i as int),
            decreases self.definitions.len() - i,
        {
            if crate::taint::is_entry_source_of(&self.definitions[i]) {
                if !is_one_of(self.definitions[i].name.as_str(), &self.tainted) {
                    let name = self.definitions[i].name.clone();
                    self.tainted.push(name);
                }
            }
            i += 1;
        }
    }

    /// Reads the definitions of `tree` and seeds the taint: `request` is
    /// tainted by itself, and so is every name that a definition takes from
    /// attacker input or binds as a parameter.
    pub fn analyze(&mut self, source: &str, tree: &SyntaxNode)
        ensures
            final(self).defs() == old(self).defs() + definitions_in(tree@),
            final(self).last_path() == old(self).last_path(),
            final(self).seeds() == entry_seeds(
                with_request(old(self).seeds()),
                final(self).defs(),
                final(self).defs().len() as int,
            ),
    {
        if !is_one_of("request", &self.tainted) {
            let name = "request".to_owned();
            proof {
                lemma_views_push(self.tainted@, name);
            }
            self.tainted.push(name);
        }
        collect_definitions(tree, &mut self.definitions);
        self.identify_entry_points();
    }

    /// The attack path of `sink`, from the sink back to where the data comes
    /// from, through every tainted name that feeds it: see `trace_of`. It is
    /// kept as the last path too.
    pub fn trace_to_entry_point(&mut self, sink: &Sink, source: &str) -> (r: Option<Vec<PathNode>>)
        ensures
            final(self).defs() == old(self).defs(),
            final(self).seeds() == old(self).seeds(),
            match r {
                Some(path) => trace_of(old(self).defs(), old(self).seeds(), sink@, source@) == Some(
                    path_views(path@),
                ) && final(self).last_path() == path_views(path@),
                None => trace_of(old(self).defs(), old(self).seeds(), sink@, source@) is None,
            },
            r matches Some(path) ==> lines_distinct(path_views(path@)) && 1 <= path@.len() <= 1
                + old(self).defs().len(),
    {
        proof {
            lemma_path_lines_distinct(old(self).defs(), old(self).seeds(), sink@, source@);
            lemma_path_visits_once(old(self).defs(), old(self).seeds(), sink@, source@);
        }
        let first = PathNode {
            line: sink.line,
            code: sink.code_snippet.clone(),
            description: join2("SINK: ", sink.sink_type.description()),
        };
        let mut path: Vec<PathNode> = Vec::new();
        path.push(first);
        let mut visited: Vec<(String, usize)> = Vec::new();
        let mut found = false;
        let ghost dv = def_views(self.definitions@);
        let ghost sv = names(self.tainted@);
        let ghost vars = sink@.tainted_vars;
        proof {
            assert(pair_views(visited@) =~= Seq::empty());
            assert(path_views(path@) =~= seq![sink_row(sink@)]);
        }
        let mut i: usize = 0;
        while i < sink.tainted_vars.len()
            invariant
                i <= sink.tainted_vars.len(),
                dv == def_views(self.definitions@),
                sv == names(self.tainted@),
                vars == sink@.tainted_vars,
                self.definitions == old(self).definitions,
                self.tainted == old(self).tainted,
                walk_of(visited@, path@) == trace_names(
                    dv,
                    sv,
                    source@,
                    vars,
                    i as int,
                    first_walk(sink@),
                ),
                found ==> first_tainted_from(dv, sv, vars, 0) < i,
                !found ==> first_tainted_from(dv, sv, vars, 0) == first_tainted_from(
                    dv,
                    sv,
                    vars,
                    i as int,
                ),
            decreases sink.tainted_vars.len() - i,
        {
            let var = &sink.tainted_vars[i];
            assert(vars[i as int] == var@);
            if search_taint(&self.definitions, &self.tainted, var.as_str()) {
                build_trace_recursive(
                    &self.definitions,
                    &self.tainted,
                    source,
                    var.as_str(),
                    self.definitions.len(),
                    &mut visited,
                    &mut path,
                );
                found = true;
            }
            i += 1;
        }
        self.path = copy_path(&path);
        assert(path_views(path@).len() == path@.len());
        if found {
            Some(path)
        } else {
            None
        }
    }
}

impl Default for BackwardSlicer {
    /// A slicer that knows no definition and no tainted name.
    fn default() -> (r: Self)
        ensures
            r.defs() == Seq::<DefinitionView>::empty(),
            r.seeds() == Seq::<Seq<char>>::empty(),
    {
        BackwardSlicer::new()
    }
}

} // verus!
