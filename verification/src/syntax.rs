//! The concrete syntax tree the analyses walk, and how it is read off the
//! tree-sitter parse of a Python source.

use crate::text::{lemma_views_push, same_text, views};
use tree_sitter::Parser;
use tree_sitter_python::language;
use vstd::prelude::*;
use vstd::string::StringSliceAdditionalSpecFns;
use vstd::utf8::{
    decode_utf8, encode_utf8, encode_utf8_decode_utf8, encode_utf8_valid_utf8, is_char_boundary,
    is_char_boundary_iff_not_is_continuation_byte, is_char_boundary_start_end_of_seq, valid_utf8,
    valid_utf8_split,
};

verus! {

/// tree-sitter's `Parser`, carried through as it is.
#[verifier::external_type_specification]
#[verifier::external_body]
pub struct ExParser(tree_sitter::Parser);

/// tree-sitter's `Language`, carried through as it is.
#[verifier::external_type_specification]
#[verifier::external_body]
pub struct ExLanguage(tree_sitter::Language);

/// tree-sitter's `LanguageError`, carried through as it is.
#[verifier::external_type_specification]
#[verifier::external_body]
pub struct ExLanguageError(tree_sitter::LanguageError);

/// One node of a concrete syntax tree, with what the analyses read of it.
pub struct SyntaxNode {
    /// The grammar's name for the node (`call`, `identifier`, ...).
    pub kind: String,
    /// Whether the node stands for a named rule of the grammar rather than a
    /// token written in it.
    pub named: bool,
    /// The field of its parent that the node fills, if any.
    pub field: Option<String>,
    /// The source text the node spans.
    pub text: String,
    /// The line on which the node starts, counted from 1.
    pub line: usize,
    /// The column at which the node starts, counted from 0.
    pub column: usize,
    /// Whether the node is, or holds, what the parser could not make sense
    /// of.
    pub has_error: bool,
    /// The node's children, tokens included, in source order.
    pub children: Vec<SyntaxNode>,
}

/// A syntax node as a value of mathematics: its texts as sequences of
/// characters, its children as a sequence of such values.
pub struct SyntaxView {
    pub kind: Seq<char>,
    pub named: bool,
    pub field: Option<Seq<char>>,
    pub text: Seq<char>,
    pub line: usize,
    pub column: usize,
    pub has_error: bool,
    pub children: Seq<SyntaxView>,
}

/// The value that `node` stands for.
pub open spec fn node_view(node: SyntaxNode) -> SyntaxView
    decreases node,
{
    SyntaxView {
        kind: node.kind@,
        named: node.named,
        field: match node.field {
            Some(f) => Some(f@),
            None => None,
        },
        text: node.text@,
        line: node.line,
        column: node.column,
        has_error: node.has_error,
        children: Seq::new(
            node.children@.len(),
            |i: int|
                if 0 <= i < node.children@.len() {
                    node_view(node.children@[i])
                } else {
                    arbitrary()
                },
        ),
    }
}

impl View for SyntaxNode {
    type V = SyntaxView;

    open spec fn view(&self) -> SyntaxView {
        node_view(*self)
    }
}

/// The value that a node which was found, or not, stands for.
pub open spec fn found_view(found: Option<&SyntaxNode>) -> Option<SyntaxView> {
    match found {
        Some(node) => Some(node@),
        None => None,
    }
}

/// The value that a tree which was read, or not, stands for.
pub open spec fn tree_view(tree: Option<SyntaxNode>) -> Option<SyntaxView> {
    match tree {
        Some(node) => Some(node@),
        None => None,
    }
}

/// The children of a node's value are the values of its children.
pub proof fn lemma_children_views(node: SyntaxNode)
    ensures
        node@.children == views(node.children@),
{
    assert(node@.children =~= views(node.children@));
}

/// The least index at or after `i` of a node that fills `field`, or the
/// length of `nodes`.
pub open spec fn field_index_from(nodes: Seq<SyntaxView>, field: Seq<char>, i: int) -> int
    decreases nodes.len() - i,
{
    if i < 0 || i >= nodes.len() {
        nodes.len() as int
    } else if nodes[i].field == Some(field) {
        i
    } else {
        field_index_from(nodes, field, i + 1)
    }
}

/// The least index at or after `i` of a named node, or the length of `nodes`.
pub open spec fn named_index_from(nodes: Seq<SyntaxView>, i: int) -> int
    decreases nodes.len() - i,
{
    if i < 0 || i >= nodes.len() {
        nodes.len() as int
    } else if nodes[i].named {
        i
    } else {
        named_index_from(nodes, i + 1)
    }
}

/// Whether every node of the tree under `node` starts on a line counted
/// from 1.
pub open spec fn lines_from_one(node: SyntaxView) -> bool
    decreases node, 1int,
{
    node.line >= 1 && all_lines_from_one(node.children)
}

/// Whether every node of the trees under `nodes` starts on a line counted
/// from 1.
pub open spec fn all_lines_from_one(nodes: Seq<SyntaxView>) -> bool
    decreases nodes, 0int,
{
    if nodes.len() == 0 {
        true
    } else {
        all_lines_from_one(nodes.drop_last()) && lines_from_one(nodes.last())
    }
}

/// Whether the tree under `node` is whole: every node starts on a line
/// counted from 1, and none is marked as an error.
pub open spec fn whole(node: SyntaxView) -> bool
    decreases node, 1int,
{
    node.line >= 1 && !node.has_error && all_whole(node.children)
}

/// Whether the trees under `nodes` are whole.
pub open spec fn all_whole(nodes: Seq<SyntaxView>) -> bool
    decreases nodes, 0int,
{
    if nodes.len() == 0 {
        true
    } else {
        all_whole(nodes.drop_last()) && whole(nodes.last())
    }
}

/// In a whole tree every node starts on a line counted from 1.
pub proof fn lemma_whole_lines_from_one(node: SyntaxView)
    requires
        whole(node),
    ensures
        lines_from_one(node),
    decreases node, 1int,
{
    lemma_all_whole_lines_from_one(node.children);
}

/// The same for a row of trees.
pub proof fn lemma_all_whole_lines_from_one(nodes: Seq<SyntaxView>)
    requires
        all_whole(nodes),
    ensures
        all_lines_from_one(nodes),
    decreases nodes, 0int,
{
    if nodes.len() > 0 {
        lemma_all_whole_lines_from_one(nodes.drop_last());
        lemma_whole_lines_from_one(nodes.last());
    }
}

proof fn lemma_one_not_whole(nodes: Seq<SyntaxView>, i: int)
    requires
        0 <= i < nodes.len(),
        !whole(nodes[i]),
    ensures
        !all_whole(nodes),
    decreases nodes.len(),
{
    if i < nodes.len() - 1 {
        lemma_one_not_whole(nodes.drop_last(), i);
    }
}

/// What holds of a row of trees holds of each.
pub proof fn lemma_each_line_from_one(nodes: Seq<SyntaxView>, i: int)
    requires
        all_lines_from_one(nodes),
        0 <= i < nodes.len(),
    ensures
        lines_from_one(nodes[i]),
    decreases nodes.len(),
{
    if i < nodes.len() - 1 {
        lemma_each_line_from_one(nodes.drop_last(), i);
    }
}

/// What holds of a tree holds of the child that fills a field, and of the
/// first named child.
pub proof fn lemma_child_lines_from_one(node: SyntaxView, field: Seq<char>)
    requires
        lines_from_one(node),
    ensures
        node.field_child(field) matches Some(child) ==> lines_from_one(child),
        node.first_named() matches Some(child) ==> lines_from_one(child),
{
    let i = field_index_from(node.children, field, 0);
    if 0 <= i < node.children.len() {
        lemma_each_line_from_one(node.children, i);
    }
    let j = named_index_from(node.children, 0);
    if 0 <= j < node.children.len() {
        lemma_each_line_from_one(node.children, j);
    }
}

impl SyntaxView {
    /// The first child that fills `field`.
    pub open spec fn field_child(self, field: Seq<char>) -> Option<SyntaxView> {
        let i = field_index_from(self.children, field, 0);
        if 0 <= i < self.children.len() {
            Some(self.children[i])
        } else {
            None
        }
    }

    /// The first named child.
    pub open spec fn first_named(self) -> Option<SyntaxView> {
        let i = named_index_from(self.children, 0);
        if 0 <= i < self.children.len() {
            Some(self.children[i])
        } else {
            None
        }
    }
}

impl SyntaxNode {
    /// Whether the node's kind is `kind`.
    pub fn is_kind(&self, kind: &str) -> (r: bool)
        ensures
            r == (self@.kind == kind@),
    {
        same_text(self.kind.as_str(), kind)
    }

    /// The first child that fills `field`.
    pub fn child_by_field(&self, field: &str) -> (r: Option<&SyntaxNode>)
        ensures
            found_view(r) == self@.field_child(field@),
            r matches Some(c) ==> exists|i: int|
                0 <= i < self.children@.len() && self.children@[i] == *c,
    {
        let mut i: usize = 0;
        while i < self.children.len()
            invariant
                i <= self.children.len(),
                self@.children.len() == self.children@.len(),
                field_index_from(self@.children, field@, 0) == field_index_from(
                    self@.children,
                    field@,
                    i as int,
                ),
            decreases self.children.len() - i,
        {
            let hit = match &self.children[i].field {
                Some(f) => same_text(f.as_str(), field),
                None => false,
            };
            assert(self@.children[i as int] == self.children@[i as int]@);
            if hit {
                return Some(&self.children[i]);
            }
            i += 1;
        }
        None
    }

    /// Whether the tree under the node is whole.
    pub fn is_whole(&self) -> (r: bool)
        ensures
            r == whole(self@),
        decreases *self,
    {
        if self.line < 1 || self.has_error {
            return false;
        }
        let mut i: usize = 0;
        while i < self.children.len()
            invariant
                i <= self.children.len(),
                self@.children.len() == self.children@.len(),
                all_whole(self@.children.take(i as int)),
            decreases self.children.len() - i,
        {
            assert(self@.children[i as int] == self.children@[i as int]@);
            if !self.children[i].is_whole() {
                proof {
                    lemma_one_not_whole(self@.children, i as int);
                }
                return false;
            }
            assert(self@.children.take(i + 1).drop_last() =~= self@.children.take(i as int));
            i += 1;
        }
        assert(self@.children.take(i as int) =~= self@.children);
        true
    }

    /// The first named child.
    pub fn first_named_child(&self) -> (r: Option<&SyntaxNode>)
        ensures
            found_view(r) == self@.first_named(),
            r matches Some(c) ==> exists|i: int|
                0 <= i < self.children@.len() && self.children@[i] == *c,
    {
        let mut i: usize = 0;
        while i < self.children.len()
            invariant
                i <= self.children.len(),
                self@.children.len() == self.children@.len(),
                named_index_from(self@.children, 0) == named_index_from(self@.children, i as int),
            decreases self.children.len() - i,
        {
            assert(self@.children[i as int] == self.children@[i as int]@);
            if self.children[i].named {
                return Some(&self.children[i]);
            }
            i += 1;
        }
        None
    }
}

/// `Parser::new` of tree-sitter: a parser with no language set. Nothing is
/// claimed of it.
#[verifier::external_body]
pub(crate) fn parser_new() -> tree_sitter::Parser {
    tree_sitter::Parser::new()
}

/// `tree_sitter_python::language`: the Python grammar. Nothing is claimed of
/// it.
#[verifier::external_body]
pub(crate) fn python_language() -> tree_sitter::Language {
    tree_sitter_python::language()
}

/// `Parser::set_language` of tree-sitter: the parser takes the grammar, or
/// refuses its version. Nothing is claimed of which.
#[verifier::external_body]
pub(crate) fn parser_set_language(
    parser: &mut tree_sitter::Parser,
    language: tree_sitter::Language,
) -> Result<(), tree_sitter::LanguageError> {
    parser.set_language(language)
}

/// The `Display` text of tree-sitter's `LanguageError`. Nothing is claimed of
/// it.
#[verifier::external_body]
pub(crate) fn language_error_text(error: &tree_sitter::LanguageError) -> String {
    error.to_string()
}

/// The bytes of `bytes` from `start` to `end`, where the two are in order and
/// both are bounds of whole characters; none otherwise.
pub open spec fn span_between(bytes: Seq<u8>, start: int, end: int) -> Seq<u8> {
    if start <= end && is_char_boundary(bytes, start) && is_char_boundary(bytes, end) {
        bytes.subrange(start, end)
    } else {
        Seq::empty()
    }
}

/// In what stands before a bound of whole characters, an offset is such a
/// bound exactly when it is one in the whole.
proof fn lemma_bound_before_bound(bytes: Seq<u8>, start: int, end: int)
    requires
        valid_utf8(bytes),
        0 <= start <= end,
        is_char_boundary(bytes, end),
    ensures
        end <= bytes.len(),
        valid_utf8(bytes.subrange(0, end)),
        is_char_boundary(bytes.subrange(0, end), start) == is_char_boundary(bytes, start),
{
    let head = bytes.subrange(0, end);
    valid_utf8_split(bytes, end);
    if start == 0 {
    } else if start == end {
        is_char_boundary_start_end_of_seq(head);
    } else {
        is_char_boundary_iff_not_is_continuation_byte(head, start);
        is_char_boundary_iff_not_is_continuation_byte(bytes, start);
    }
}

/// What the parser says of one node, as it says it: the row and the column
/// counted from 0, the text as two byte offsets into the source, the children
/// as their number.
pub struct RawNode {
    /// The grammar's name for the node.
    pub kind: String,
    /// Whether the node stands for a named rule of the grammar.
    pub named: bool,
    /// The field of its parent that the node fills, if any.
    pub field: Option<String>,
    /// The byte offset at which the node starts.
    pub start_byte: usize,
    /// The byte offset at which the node ends.
    pub end_byte: usize,
    /// The row on which the node starts, counted from 0.
    pub row: usize,
    /// The column at which the node starts, counted from 0.
    pub column: usize,
    /// Whether the node is, or holds, a syntax error.
    pub has_error: bool,
    /// How many children the node has, tokens included.
    pub child_count: usize,
}

/// The nodes of the tree that tree-sitter's Python parser makes of a text,
/// each node before its children and the children in source order; none
/// where the parser gives no tree.
pub uninterp spec fn parsed(source: Seq<char>) -> Option<Vec<RawNode>>;

/// What tree-sitter makes of `source` with a fresh parser on which the
/// Python grammar is set (`Parser::new`, `tree_sitter_python::language`,
/// `Parser::set_language`, `Parser::parse`), walked with a `TreeCursor` from
/// the root: each node is written down when the cursor first stands on it,
/// with what `Node` and the cursor say of it. The parser has no timeout and
/// no earlier tree, so what comes back depends on the text alone; it is here
/// called `parsed`. Nothing else is claimed of it.
#[verifier::external_body]
pub(crate) fn read_raw(source: &str) -> (r: Option<Vec<RawNode>>)
    ensures
        r == parsed(source@),
{
    let mut parser = Parser::new();
    parser.set_language(language()).ok()?;
    let tree = parser.parse(source, None)?;
    let mut cursor = tree.walk();
    let mut nodes = vec![];
    loop {
        let node = cursor.node();
        nodes.push(RawNode { kind: node.kind().to_string(), named: node.is_named(),
            field: cursor.field_name().map(String::from), start_byte: node.start_byte(), end_byte: node.end_byte(),
            row: node.start_position().row, column: node.start_position().column, has_error: node.has_error(), child_count: node.child_count() });
        if cursor.goto_first_child() { continue; }
        while !cursor.goto_next_sibling() {
            if !cursor.goto_parent() { return Some(nodes); }
        }
    }
}

/// The text that `source` holds between two byte offsets; empty where they
/// are not the bounds of a run of whole characters.
pub open spec fn span_text(source: Seq<char>, start: int, end: int) -> Seq<char> {
    decode_utf8(span_between(encode_utf8(source), start, end))
}

/// The text of `source` between two byte offsets; empty where they are not
/// the bounds of a run of whole characters.
fn text_between(source: &str, start: usize, end: usize) -> (r: String)
    ensures
        r@ == span_text(source@, start as int, end as int),
{
    let ghost bytes = source.spec_bytes();
    proof {
        encode_utf8_valid_utf8(source@);
    }
    if start <= end && source.is_char_boundary(end) {
        proof {
            lemma_bound_before_bound(bytes, start as int, end as int);
        }
        let (head, _) = source.split_at(end);
        if head.is_char_boundary(start) {
            let (_, tail) = head.split_at(start);
            assert(tail.spec_bytes() =~= bytes.subrange(start as int, end as int));
            proof {
                encode_utf8_decode_utf8(tail@);
            }
            return tail.to_owned();
        }
    }
    let empty = String::new();
    proof {
        encode_utf8_decode_utf8(empty@);
        assert(encode_utf8(empty@) =~= Seq::<u8>::empty());
    }
    empty
}

/// The node that the parser's word on it stands for, with `children` under
/// it: the line is the row counted from 1, the text is what the source holds
/// between the node's two offsets.
pub open spec fn node_read(raw: RawNode, source: Seq<char>, children: Seq<SyntaxView>) -> SyntaxView {
    SyntaxView {
        kind: raw.kind@,
        named: raw.named,
        field: match raw.field {
            Some(f) => Some(f@),
            None => None,
        },
        text: span_text(source, raw.start_byte as int, raw.end_byte as int),
        line: (raw.row + 1) as usize,
        column: raw.column,
        has_error: raw.has_error,
        children,
    }
}

/// The tree that starts with the node at `at` in `nodes`, and the index
/// after its last node: the node is followed by the trees of as many children
/// as it counts. There is none where `nodes` ends before the tree does, or
/// where a row is the greatest number there is, so that no line counted from
/// 1 stands for it.
pub open spec fn node_at(nodes: Seq<RawNode>, source: Seq<char>, at: int) -> Option<
    (SyntaxView, int),
>
    decreases nodes.len() - at, 0int,
{
    if 0 <= at < nodes.len() && nodes[at].row < usize::MAX {
        match children_from(nodes, source, at + 1, nodes[at].child_count as int) {
            Some((children, end)) => Some((node_read(nodes[at], source, children), end)),
            None => None,
        }
    } else {
        None
    }
}

/// The trees of `count` nodes in a row, the first of which starts at `at`,
/// and the index after the last of them.
pub open spec fn children_from(
    nodes: Seq<RawNode>,
    source: Seq<char>,
    at: int,
    count: int,
) -> Option<(Seq<SyntaxView>, int)>
    decreases nodes.len() - at, 1 + count,
{
    if count <= 0 {
        Some((Seq::empty(), at))
    } else if at < 0 || at > nodes.len() {
        None
    } else {
        match children_from(nodes, source, at, count - 1) {
            Some((before, next)) => if at <= next <= nodes.len() {
                match node_at(nodes, source, next) {
                    Some((child, end)) => Some((before.push(child), end)),
                    None => None,
                }
            } else {
                None
            },
            None => None,
        }
    }
}

/// The tree that `nodes` spell out: the tree that starts with the first
/// node, where it ends with the last.
pub open spec fn tree_read(nodes: Seq<RawNode>, source: Seq<char>) -> Option<SyntaxView> {
    match node_at(nodes, source, 0) {
        Some((tree, end)) => if end == nodes.len() {
            Some(tree)
        } else {
            None
        },
        None => None,
    }
}

/// The syntax tree of `source`: what the parser makes of it, where that
/// spells out a whole tree; none where the parser gives no tree or one that
/// is not whole.
pub open spec fn syntax_tree(source: Seq<char>) -> Option<SyntaxView> {
    match parsed(source) {
        Some(nodes) => match tree_read(nodes@, source) {
            Some(tree) => if whole(tree) {
                Some(tree)
            } else {
                None
            },
            None => None,
        },
        None => None,
    }
}

/// Where a child is missing, so are the children after it.
proof fn lemma_children_stop(nodes: Seq<RawNode>, source: Seq<char>, at: int, k: int, count: int)
    requires
        0 <= k < count,
        children_from(nodes, source, at, k) matches Some((_, next)) ==> !(at <= next
            <= nodes.len()) || node_at(nodes, source, next) is None,
    ensures
        children_from(nodes, source, at, count) is None,
    decreases count,
{
    if k < count - 1 {
        lemma_children_stop(nodes, source, at, k, count - 1);
    }
}

/// The tree that starts at `at` in `nodes`, with the index after it.
fn read_node(nodes: &Vec<RawNode>, source: &str, at: usize) -> (r: Option<(SyntaxNode, usize)>)
    ensures
        match r {
            Some((node, end)) => node_at(nodes@, source@, at as int) == Some((node@, end as int))
                && at < end <= nodes.len(),
            None => node_at(nodes@, source@, at as int) is None,
        },
    decreases nodes.len() - at,
{
    if at >= nodes.len() {
        return None;
    }
    let raw = &nodes[at];
    if raw.row == usize::MAX {
        return None;
    }
    let mut children: Vec<SyntaxNode> = Vec::new();
    let mut next: usize = at + 1;
    let mut k: usize = 0;
    while k < raw.child_count
        invariant
            k <= raw.child_count,
            at < next <= nodes.len(),
            *raw == nodes@[at as int],
            raw.row < usize::MAX,
            children_from(nodes@, source@, at + 1, k as int) == Some(
                (views(children@), next as int),
            ),
        decreases raw.child_count - k,
    {
        match read_node(nodes, source, next) {
            Some((child, end)) => {
                proof {
                    lemma_views_push(children@, child);
                }
                children.push(child);
                next = end;
            },
            None => {
                proof {
                    lemma_children_stop(
                        nodes@,
                        source@,
                        at + 1,
                        k as int,
                        raw.child_count as int,
                    );
                }
                return None;
            },
        }
        k += 1;
    }
    let field = match &raw.field {
        Some(f) => Some(f.clone()),
        None => None,
    };
    let node = SyntaxNode {
        kind: raw.kind.clone(),
        named: raw.named,
        field,
        text: text_between(source, raw.start_byte, raw.end_byte),
        line: raw.row + 1,
        column: raw.column,
        has_error: raw.has_error,
        children,
    };
    proof {
        lemma_children_views(node);
    }
    Some((node, next))
}

/// The tree that `nodes` spell out over `source`, if they spell out one.
pub fn tree_of(nodes: &Vec<RawNode>, source: &str) -> (r: Option<SyntaxNode>)
    ensures
        tree_view(r) == tree_read(nodes@, source@),
{
    match read_node(nodes, source, 0) {
        Some((tree, end)) => if end == nodes.len() {
            Some(tree)
        } else {
            None
        },
        None => None,
    }
}

} // verus!
