//! The project index: the functions and classes of a workspace, the imports
//! of each file, and the resolution of a name used in a file.

use crate::python_parser::{is_language_failure, PythonParser};
use crate::syntax::{syntax_tree, SyntaxNode, SyntaxView};
use crate::text::{
    chars_of, ends_with, ends_with_text, joined, lemma_views_push, names, same_text, starts_with,
    starts_with_text, views,
};
use vstd::prelude::*;
use vstd::string::StrSliceExecFns;
use vstd::string::StringExecFns;

verus! {

/// What an indexed name stands for.
#[derive(Debug, Clone, Copy, PartialEq, Eq, Structural)]
pub enum SymbolKind {
    Function,
    Class,
    Variable,
}

/// A definition found in a file of the workspace.
#[derive(Debug, Clone)]
pub struct Symbol {
    /// The name defined.
    pub name: String,
    /// What it stands for.
    pub kind: SymbolKind,
    /// The file that defines it.
    pub file_path: String,
    /// The line of the definition, counted from 1.
    pub line: usize,
    /// The dotted path of the file's module.
    pub module_name: String,
}

/// A symbol, as a value of mathematics.
pub struct SymbolView {
    pub name: Seq<char>,
    pub kind: SymbolKind,
    pub file_path: Seq<char>,
    pub line: usize,
    pub module_name: Seq<char>,
}

impl View for Symbol {
    type V = SymbolView;

    open spec fn view(&self) -> SymbolView {
        SymbolView {
            name: self.name@,
            kind: self.kind,
            file_path: self.file_path@,
            line: self.line,
            module_name: self.module_name@,
        }
    }
}

/// One name of an import, with the alias it is imported under.
#[derive(Debug, Clone)]
pub struct ImportedName {
    pub name: String,
    pub alias: Option<String>,
}

/// An imported name, as a value of mathematics.
pub struct ImportedNameView {
    pub name: Seq<char>,
    pub alias: Option<Seq<char>>,
}

impl View for ImportedName {
    type V = ImportedNameView;

    open spec fn view(&self) -> ImportedNameView {
        ImportedNameView {
            name: self.name@,
            alias: match self.alias {
                Some(a) => Some(a@),
                None => None,
            },
        }
    }
}

/// An `import` or `from ... import` statement.
#[derive(Debug, Clone)]
pub struct ImportStatement {
    /// The module imported from, or the first name imported.
    pub module: String,
    /// The names imported.
    pub names: Vec<ImportedName>,
    /// Whether the statement begins with `from`.
    pub is_from_import: bool,
}

/// An import statement, as a value of mathematics.
pub struct ImportView {
    pub module: Seq<char>,
    pub names: Seq<ImportedNameView>,
    pub is_from_import: bool,
}

impl View for ImportStatement {
    type V = ImportView;

    open spec fn view(&self) -> ImportView {
        ImportView {
            module: self.module@,
            names: views(self.names@),
            is_from_import: self.is_from_import,
        }
    }
}

/// The imports of one file.
pub struct FileImports {
    pub file_path: String,
    pub imports: Vec<ImportStatement>,
}

/// The imports of one file, as a value of mathematics.
pub struct FileImportsView {
    pub file_path: Seq<char>,
    pub imports: Seq<ImportView>,
}

impl View for FileImports {
    type V = FileImportsView;

    open spec fn view(&self) -> FileImportsView {
        FileImportsView { file_path: self.file_path@, imports: views(self.imports@) }
    }
}

/// A file of the workspace, as it was read.
#[derive(Debug, Clone)]
pub struct SourceFile {
    pub path: String,
    pub source: String,
}

/// The symbol that `node` itself defines, as a sequence of one or none: a
/// function or a class, under the name in its `name` field.
pub open spec fn symbol_here(node: SyntaxView, file: Seq<char>, module: Seq<char>) -> Seq<
    SymbolView,
> {
    if node.kind == "function_definition"@ || node.kind == "class_definition"@ {
        match node.field_child("name"@) {
            Some(name) => seq![
                SymbolView {
                    name: name.text,
                    kind: if node.kind == "function_definition"@ {
                        SymbolKind::Function
                    } else {
                        SymbolKind::Class
                    },
                    file_path: file,
                    line: node.line,
                    module_name: module,
                },
            ],
            None => Seq::empty(),
        }
    } else {
        Seq::empty()
    }
}

/// The symbols of the tree under `node`, in source order.
pub open spec fn symbols_in(node: SyntaxView, file: Seq<char>, module: Seq<char>) -> Seq<SymbolView>
    decreases node, 1int,
{
    symbol_here(node, file, module) + symbols_in_all(node.children, file, module)
}

/// The symbols of the trees under `nodes`, tree after tree.
pub open spec fn symbols_in_all(nodes: Seq<SyntaxView>, file: Seq<char>, module: Seq<char>) -> Seq<
    SymbolView,
>
    decreases nodes, 0int,
{
    if nodes.len() == 0 {
        Seq::empty()
    } else {
        symbols_in_all(nodes.drop_last(), file, module) + symbols_in(nodes.last(), file, module)
    }
}

/// The name that an aliased import gives, as a sequence of one or none.
pub open spec fn aliased_name(child: SyntaxView) -> Seq<ImportedNameView> {
    match child.field_child("name"@) {
        Some(name) => seq![
            ImportedNameView {
                name: name.text,
                alias: match child.field_child("alias"@) {
                    Some(alias) => Some(alias.text),
                    None => None,
                },
            },
        ],
        None => Seq::empty(),
    }
}

/// The name that one child of an `import` statement gives.
pub open spec fn plain_name(child: SyntaxView) -> Seq<ImportedNameView> {
    if child.kind == "dotted_name"@ {
        seq![ImportedNameView { name: child.text, alias: None }]
    } else if child.kind == "aliased_import"@ {
        aliased_name(child)
    } else {
        Seq::empty()
    }
}

/// The names that the children of an `import` statement give.
pub open spec fn plain_names(children: Seq<SyntaxView>) -> Seq<ImportedNameView>
    decreases children.len(),
{
    if children.len() == 0 {
        Seq::empty()
    } else {
        plain_names(children.drop_last()) + plain_name(children.last())
    }
}

/// The import that an `import` statement makes: its module is the first name
/// imported. None where it imports no name.
pub open spec fn plain_import(node: SyntaxView) -> Seq<ImportView> {
    let names = plain_names(node.children);
    if names.len() > 0 {
        seq![ImportView { module: names[0].name, names, is_from_import: false }]
    } else {
        Seq::empty()
    }
}

/// The module and the names of a `from` import, as far as they are read.
pub struct FromParts {
    pub module: Seq<char>,
    pub names: Seq<ImportedNameView>,
}

/// What one more child adds to a `from` import: the first dotted name is the
/// module; later dotted names and identifiers are names imported, and so are
/// aliased imports.
pub open spec fn from_step(parts: FromParts, child: SyntaxView) -> FromParts {
    if child.kind == "dotted_name"@ && parts.module.len() == 0 {
        FromParts { module: child.text, names: parts.names }
    } else if child.kind == "dotted_name"@ || child.kind == "identifier"@ {
        if child.text != "from"@ && child.text != "import"@ {
            FromParts {
                module: parts.module,
                names: parts.names.push(ImportedNameView { name: child.text, alias: None }),
            }
        } else {
            parts
        }
    } else if child.kind == "aliased_import"@ {
        FromParts { module: parts.module, names: parts.names + aliased_name(child) }
    } else {
        parts
    }
}

/// The module and the names that the children of a `from` import give.
pub open spec fn from_parts(children: Seq<SyntaxView>) -> FromParts
    decreases children.len(),
{
    if children.len() == 0 {
        FromParts { module: Seq::empty(), names: Seq::empty() }
    } else {
        from_step(from_parts(children.drop_last()), children.last())
    }
}

/// The import that a `from` import makes. None where it names no module.
pub open spec fn from_import(node: SyntaxView) -> Seq<ImportView> {
    let parts = from_parts(node.children);
    if parts.module.len() > 0 {
        seq![ImportView { module: parts.module, names: parts.names, is_from_import: true }]
    } else {
        Seq::empty()
    }
}

/// The import that `node` itself makes, as a sequence of one or none.
pub open spec fn import_here(node: SyntaxView) -> Seq<ImportView> {
    if node.kind == "import_statement"@ {
        plain_import(node)
    } else if node.kind == "import_from_statement"@ {
        from_import(node)
    } else {
        Seq::empty()
    }
}

/// The imports of the tree under `node`, in source order.
pub open spec fn imports_in(node: SyntaxView) -> Seq<ImportView>
    decreases node, 1int,
{
    import_here(node) + imports_in_all(node.children)
}

/// The imports of the trees under `nodes`, tree after tree.
pub open spec fn imports_in_all(nodes: Seq<SyntaxView>) -> Seq<ImportView>
    decreases nodes, 0int,
{
    if nodes.len() == 0 {
        Seq::empty()
    } else {
        imports_in_all(nodes.drop_last()) + imports_in(nodes.last())
    }
}

/// A character that parts the components of a path.
pub open spec fn is_separator(c: char) -> bool {
    c == '/' || c == '\\'
}

/// The components of a path, the one in progress having begun at `start`
/// and the scan standing at `i`. Empty components are left out.
pub open spec fn components_from(path: Seq<char>, start: int, i: int) -> Seq<Seq<char>>
    decreases path.len() - i,
{
    if i < 0 || i >= path.len() {
        if start < path.len() {
            seq![path.subrange(start, path.len() as int)]
        } else {
            Seq::empty()
        }
    } else if !is_separator(path[i]) {
        components_from(path, start, i + 1)
    } else if start < i {
        seq![path.subrange(start, i)] + components_from(path, i + 1, i + 1)
    } else {
        components_from(path, i + 1, i + 1)
    }
}

/// Whether `path` lies under `root`: it begins with `root`, and what follows
/// begins a new component.
pub open spec fn lies_under(path: Seq<char>, root: Seq<char>) -> bool {
    starts_with_text(path, root) && (path.len() == root.len() || is_separator(
        path[root.len() as int],
    ) || (root.len() > 0 && is_separator(root.last())))
}

/// `path` as seen from `root`: what follows `root` where the path lies under
/// it, else all of it.
pub open spec fn relative_to(path: Seq<char>, root: Seq<char>) -> Seq<char> {
    if lies_under(path, root) {
        path.subrange(root.len() as int, path.len() as int)
    } else {
        path
    }
}

/// A file name without the extension of Python sources.
pub open spec fn without_extension(name: Seq<char>) -> Seq<char> {
    if ends_with_text(name, ".py"@) {
        name.subrange(0, name.len() - ".py"@.len())
    } else {
        name
    }
}

/// The components with the last one stripped of its extension.
pub open spec fn module_parts(parts: Seq<Seq<char>>) -> Seq<Seq<char>> {
    if parts.len() == 0 {
        parts
    } else {
        parts.drop_last().push(without_extension(parts.last()))
    }
}

/// The dotted module path of the file `path` in the workspace `root`: the
/// components of the relative path, the extension dropped, with dots between
/// them.
pub open spec fn module_name_of(root: Seq<char>, path: Seq<char>) -> Seq<char> {
    joined(module_parts(components_from(relative_to(path, root), 0, 0)), "."@)
}

/// Whether the walk of a workspace passes over the directory entry `name`:
/// hidden entries, and the directories of packages, caches and virtual
/// environments.
pub open spec fn is_skipped_entry(name: Seq<char>) -> bool {
    (name.len() > 0 && name[0] == '.') || name == "node_modules"@ || name == "__pycache__"@ || name
        == "venv"@ || name == ".venv"@
}

/// Whether the file `name` is a Python source: it ends in `.py` and has a
/// stem before it.
pub open spec fn is_python_name(name: Seq<char>) -> bool {
    ends_with_text(name, ".py"@) && name.len() > ".py"@.len()
}

/// An entry of a directory: a file, or a directory with its entries.
pub struct DirEntry {
    /// The name of the entry in its directory.
    pub name: String,
    /// The path of the entry.
    pub path: String,
    /// Whether the entry is a directory.
    pub is_dir: bool,
    /// The entries of the directory, in the order they were listed.
    pub children: Vec<DirEntry>,
}

/// The Python files that `entry` gives: none where the walk passes over it;
/// those of its entries where it is a directory; itself where it is a Python
/// source.
pub open spec fn python_files_of(entry: DirEntry) -> Seq<Seq<char>>
    decreases entry, 1int,
{
    if is_skipped_entry(entry.name@) {
        Seq::empty()
    } else if entry.is_dir {
        python_files_among(entry.children@)
    } else if is_python_name(entry.name@) {
        seq![entry.path@]
    } else {
        Seq::empty()
    }
}

/// The Python files that `entries` give, entry after entry.
pub open spec fn python_files_among(entries: Seq<DirEntry>) -> Seq<Seq<char>>
    decreases entries, 0int,
{
    if entries.len() == 0 {
        Seq::empty()
    } else {
        python_files_among(entries.drop_last()) + python_files_of(entries.last())
    }
}

/// The Python files under the directory `root`: those that its entries give.
/// What is no directory holds none.
pub open spec fn python_files_under(root: DirEntry) -> Seq<Seq<char>> {
    if root.is_dir {
        python_files_among(root.children@)
    } else {
        Seq::empty()
    }
}

/// The least index at or after `i` of a symbol `name` that `file` defines,
/// or the number of symbols.
pub open spec fn local_index_from(
    symbols: Seq<SymbolView>,
    file: Seq<char>,
    name: Seq<char>,
    i: int,
) -> int
    decreases symbols.len() - i,
{
    if i < 0 || i >= symbols.len() {
        symbols.len() as int
    } else if symbols[i].name == name && symbols[i].file_path == file {
        i
    } else {
        local_index_from(symbols, file, name, i + 1)
    }
}

/// The least index at or after `i` of a symbol `name`, or the number of
/// symbols.
pub open spec fn named_index_from(symbols: Seq<SymbolView>, name: Seq<char>, i: int) -> int
    decreases symbols.len() - i,
{
    if i < 0 || i >= symbols.len() {
        symbols.len() as int
    } else if symbols[i].name == name {
        i
    } else {
        named_index_from(symbols, name, i + 1)
    }
}

/// Whether a symbol's module and an imported module fit: one ends with the
/// other.
pub open spec fn modules_fit(symbol_module: Seq<char>, imported_module: Seq<char>) -> bool {
    ends_with_text(symbol_module, imported_module) || ends_with_text(
        imported_module,
        symbol_module,
    )
}

/// The least index at or after `i` of a symbol `name` whose module fits
/// `module`, or the number of symbols.
pub open spec fn fitting_index_from(
    symbols: Seq<SymbolView>,
    name: Seq<char>,
    module: Seq<char>,
    i: int,
) -> int
    decreases symbols.len() - i,
{
    if i < 0 || i >= symbols.len() {
        symbols.len() as int
    } else if symbols[i].name == name && modules_fit(symbols[i].module_name, module) {
        i
    } else {
        fitting_index_from(symbols, name, module, i + 1)
    }
}

/// The symbol that an import of `name` from `module` stands for: the first
/// symbol of that name whose module fits, else the first of that name.
pub open spec fn imported_symbol(symbols: Seq<SymbolView>, name: Seq<char>, module: Seq<char>) -> Option<
    int,
> {
    let fit = fitting_index_from(symbols, name, module, 0);
    let any = named_index_from(symbols, name, 0);
    if 0 <= fit < symbols.len() {
        Some(fit)
    } else if 0 <= any < symbols.len() {
        Some(any)
    } else {
        None
    }
}

/// The name under which an imported name is known in the importing file.
pub open spec fn effective_name(imported: ImportedNameView) -> Seq<char> {
    match imported.alias {
        Some(alias) => alias,
        None => imported.name,
    }
}

/// The symbol that the names of `import`, from the `j`-th on, give for
/// `name`.
pub open spec fn resolve_in_names(
    symbols: Seq<SymbolView>,
    import: ImportView,
    name: Seq<char>,
    j: int,
) -> Option<int>
    decreases import.names.len() - j,
{
    if j < 0 || j >= import.names.len() {
        None
    } else if effective_name(import.names[j]) == name && imported_symbol(
        symbols,
        import.names[j].name,
        import.module,
    ) is Some {
        imported_symbol(symbols, import.names[j].name, import.module)
    } else {
        resolve_in_names(symbols, import, name, j + 1)
    }
}

/// The symbol that `imports`, from the `i`-th on, give for `name`.
pub open spec fn resolve_in_imports(
    symbols: Seq<SymbolView>,
    imports: Seq<ImportView>,
    name: Seq<char>,
    i: int,
) -> Option<int>
    decreases imports.len() - i,
{
    if i < 0 || i >= imports.len() {
        None
    } else if resolve_in_names(symbols, imports[i], name, 0) is Some {
        resolve_in_names(symbols, imports[i], name, 0)
    } else {
        resolve_in_imports(symbols, imports, name, i + 1)
    }
}

/// The index just behind the last entry for `file` before `j`, or 0.
pub open spec fn entry_cut(entries: Seq<FileImportsView>, file: Seq<char>, j: int) -> int
    decreases j,
{
    if j <= 0 || j > entries.len() {
        0
    } else if entries[j - 1].file_path == file {
        j
    } else {
        entry_cut(entries, file, j - 1)
    }
}

/// The imports recorded for `file`: those of its last entry.
pub open spec fn imports_of(entries: Seq<FileImportsView>, file: Seq<char>) -> Option<
    Seq<ImportView>,
> {
    let j = entry_cut(entries, file, entries.len() as int);
    if 0 < j <= entries.len() {
        Some(entries[j - 1].imports)
    } else {
        None
    }
}

/// The index of the symbol that `name`, used in `file`, stands for: a symbol
/// of that name in the file itself; else what the file's imports give; else
/// the first symbol of that name anywhere.
pub open spec fn resolved_index(
    symbols: Seq<SymbolView>,
    entries: Seq<FileImportsView>,
    file: Seq<char>,
    name: Seq<char>,
) -> Option<int> {
    let local = local_index_from(symbols, file, name, 0);
    let any = named_index_from(symbols, name, 0);
    let global = if 0 <= any < symbols.len() {
        Some(any)
    } else {
        None
    };
    if 0 <= local < symbols.len() {
        Some(local)
    } else {
        match imports_of(entries, file) {
            Some(imports) => match resolve_in_imports(symbols, imports, name, 0) {
                Some(found) => Some(found),
                None => global,
            },
            None => global,
        }
    }
}

/// A file as the parser read it: its path, its text and, where the parser
/// gave one, its syntax tree.
pub struct ReadFile {
    pub path: Seq<char>,
    pub source: Seq<char>,
    pub tree: Option<SyntaxView>,
}

/// What an index holds.
pub struct IndexState {
    pub symbols: Seq<SymbolView>,
    pub entries: Seq<FileImportsView>,
}

/// The index after `file`: where the parser gave a tree, the symbols of the
/// file join the index and its imports are recorded; else nothing changes.
pub open spec fn index_step(state: IndexState, root: Seq<char>, file: ReadFile) -> IndexState {
    match file.tree {
        Some(tree) => IndexState {
            symbols: state.symbols + symbols_in(tree, file.path, module_name_of(root, file.path)),
            entries: state.entries.push(
                FileImportsView { file_path: file.path, imports: imports_in(tree) },
            ),
        },
        None => state,
    }
}

/// The index after the files `read`, one after the other.
pub open spec fn indexed(state: IndexState, root: Seq<char>, read: Seq<ReadFile>) -> IndexState
    decreases read.len(),
{
    if read.len() == 0 {
        state
    } else {
        index_step(indexed(state, root, read.drop_last()), root, read.last())
    }
}

/// How many of the files `read` the parser gave a tree for.
pub open spec fn read_count(read: Seq<ReadFile>) -> nat
    decreases read.len(),
{
    if read.len() == 0 {
        0
    } else {
        read_count(read.drop_last()) + if read.last().tree is Some {
            1nat
        } else {
            0nat
        }
    }
}

/// The file `path` with the text `source`, as it is read: with the syntax
/// tree of its text, where it has one.
pub open spec fn read_file(path: Seq<char>, source: Seq<char>) -> ReadFile {
    ReadFile { path, source, tree: syntax_tree(source) }
}

/// The files `files`, in order, as they are read.
pub open spec fn read_files(files: Seq<SourceFile>) -> Seq<ReadFile> {
    Seq::new(files.len(), |k: int| read_file(files[k].path@, files[k].source@))
}

/// A name that the file itself defines stands for the first symbol of that
/// name in the file, whatever the file imports.
pub proof fn lemma_own_symbol_is_preferred(
    symbols: Seq<SymbolView>,
    entries: Seq<FileImportsView>,
    file: Seq<char>,
    name: Seq<char>,
    i: int,
)
    requires
        0 <= i < symbols.len(),
        symbols[i].name == name,
        symbols[i].file_path == file,
    ensures
        resolved_index(symbols, entries, file, name) matches Some(found) && 0 <= found <= i
            && symbols[found].name == name && symbols[found].file_path == file,
{
    lemma_local_index(symbols, file, name, 0, i);
}

proof fn lemma_local_index(symbols: Seq<SymbolView>, file: Seq<char>, name: Seq<char>, from: int, i: int)
    requires
        0 <= from <= i < symbols.len(),
        symbols[i].name == name,
        symbols[i].file_path == file,
    ensures
        from <= local_index_from(symbols, file, name, from) <= i,
        symbols[local_index_from(symbols, file, name, from)].name == name,
        symbols[local_index_from(symbols, file, name, from)].file_path == file,
    decreases i - from,
{
    if !(symbols[from].name == name && symbols[from].file_path == file) {
        lemma_local_index(symbols, file, name, from + 1, i);
    }
}

/// A name that nothing defines stands for nothing.
pub proof fn lemma_unknown_name_is_unresolved(
    symbols: Seq<SymbolView>,
    entries: Seq<FileImportsView>,
    file: Seq<char>,
    name: Seq<char>,
)
    requires
        forall|i: int| 0 <= i < symbols.len() ==> (#[trigger] symbols[i]).name != name,
        forall|e: int, k: int, j: int|
            0 <= e < entries.len() && 0 <= k < entries[e].imports.len() && 0 <= j
                < entries[e].imports[k].names.len() ==> effective_name(
                #[trigger] entries[e].imports[k].names[j],
            ) != name,
    ensures
        resolved_index(symbols, entries, file, name) is None,
{
    lemma_absent_name(symbols, file, name, 0);
    match imports_of(entries, file) {
        Some(imports) => {
            let e = entry_cut(entries, file, entries.len() as int) - 1;
            lemma_imports_give_nothing(symbols, entries, e, name, 0);
        },
        None => {},
    }
}

proof fn lemma_absent_name(symbols: Seq<SymbolView>, file: Seq<char>, name: Seq<char>, from: int)
    requires
        0 <= from <= symbols.len(),
        forall|i: int| 0 <= i < symbols.len() ==> (#[trigger] symbols[i]).name != name,
    ensures
        local_index_from(symbols, file, name, from) == symbols.len(),
        named_index_from(symbols, name, from) == symbols.len(),
    decreases symbols.len() - from,
{
    if from < symbols.len() {
        lemma_absent_name(symbols, file, name, from + 1);
    }
}

proof fn lemma_entry_cut_bounds(entries: Seq<FileImportsView>, file: Seq<char>, j: int)
    requires
        0 <= j <= entries.len(),
    ensures
        0 <= entry_cut(entries, file, j) <= j,
    decreases j,
{
    if j > 0 && entries[j - 1].file_path != file {
        lemma_entry_cut_bounds(entries, file, j - 1);
    }
}

proof fn lemma_names_give_nothing(
    symbols: Seq<SymbolView>,
    import: ImportView,
    name: Seq<char>,
    j: int,
)
    requires
        0 <= j <= import.names.len(),
        forall|k: int|
            0 <= k < import.names.len() ==> effective_name(#[trigger] import.names[k]) != name,
    ensures
        resolve_in_names(symbols, import, name, j) is None,
    decreases import.names.len() - j,
{
    if j < import.names.len() {
        lemma_names_give_nothing(symbols, import, name, j + 1);
    }
}

proof fn lemma_imports_give_nothing(
    symbols: Seq<SymbolView>,
    entries: Seq<FileImportsView>,
    e: int,
    name: Seq<char>,
    i: int,
)
    requires
        0 <= e < entries.len(),
        0 <= i <= entries[e].imports.len(),
        forall|e: int, k: int, j: int|
            0 <= e < entries.len() && 0 <= k < entries[e].imports.len() && 0 <= j
                < entries[e].imports[k].names.len() ==> effective_name(
                #[trigger] entries[e].imports[k].names[j],
            ) != name,
    ensures
        resolve_in_imports(symbols, entries[e].imports, name, i) is None,
    decreases entries[e].imports.len() - i,
{
    if i < entries[e].imports.len() {
        lemma_names_give_nothing(symbols, entries[e].imports[i], name, 0);
        lemma_imports_give_nothing(symbols, entries, e, name, i + 1);
    }
}

proof fn lemma_symbols_in_all_next(nodes: Seq<SyntaxView>, file: Seq<char>, module: Seq<char>, i: int)
    requires
        0 <= i < nodes.len(),
    ensures
        symbols_in_all(nodes.take(i + 1), file, module) == symbols_in_all(
            nodes.take(i),
            file,
            module,
        ) + symbols_in(nodes[i], file, module),
{
    assert(nodes.take(i + 1).drop_last() =~= nodes.take(i));
}

proof fn lemma_imports_in_all_next(nodes: Seq<SyntaxView>, i: int)
    requires
        0 <= i < nodes.len(),
    ensures
        imports_in_all(nodes.take(i + 1)) == imports_in_all(nodes.take(i)) + imports_in(nodes[i]),
{
    assert(nodes.take(i + 1).drop_last() =~= nodes.take(i));
}

proof fn lemma_plain_names_next(children: Seq<SyntaxView>, i: int)
    requires
        0 <= i < children.len(),
    ensures
        plain_names(children.take(i + 1)) == plain_names(children.take(i)) + plain_name(
            children[i],
        ),
{
    assert(children.take(i + 1).drop_last() =~= children.take(i));
}

proof fn lemma_from_parts_next(children: Seq<SyntaxView>, i: int)
    requires
        0 <= i < children.len(),
    ensures
        from_parts(children.take(i + 1)) == from_step(from_parts(children.take(i)), children[i]),
{
    assert(children.take(i + 1).drop_last() =~= children.take(i));
}

/// Whether the walk of a workspace passes over the directory entry `name`.
pub fn skips_entry(name: &str) -> (r: bool)
    ensures
        r == is_skipped_entry(name@),
{
    let hidden = name.unicode_len() > 0 && name.get_char(0) == '.';
    hidden || same_text(name, "node_modules") || same_text(name, "__pycache__") || same_text(
        name,
        "venv",
    ) || same_text(name, ".venv")
}

/// Whether the file `name` is a Python source.
pub fn is_python_file(name: &str) -> (r: bool)
    ensures
        r == is_python_name(name@),
{
    ends_with(name, ".py") && name.unicode_len() > ".py".unicode_len()
}

proof fn lemma_python_files_among_next(entries: Seq<DirEntry>, i: int)
    requires
        0 <= i < entries.len(),
    ensures
        python_files_among(entries.take(i + 1)) == python_files_among(entries.take(i))
            + python_files_of(entries[i]),
{
    assert(entries.take(i + 1).drop_last() =~= entries.take(i));
}

fn collect_python_files(entries: &Vec<DirEntry>, files: &mut Vec<String>)
    ensures
        names(final(files)@) == names(old(files)@) + python_files_among(entries@),
    decreases entries,
{
    let mut i: usize = 0;
    while i < entries.len()
        invariant
            i <= entries.len(),
            names(files@) == names(old(files)@) + python_files_among(entries@.take(i as int)),
        decreases entries.len() - i,
    {
        proof {
            lemma_python_files_among_next(entries@, i as int);
        }
        let entry = &entries[i];
        if skips_entry(entry.name.as_str()) {
        } else if entry.is_dir {
            collect_python_files(&entry.children, files);
        } else if is_python_file(entry.name.as_str()) {
            proof {
                lemma_views_push(files@, entry.path);
            }
            files.push(entry.path.clone());
        }
        i += 1;
    }
    assert(entries@.take(i as int) =~= entries@);
}

/// The Python files under the directory `root`, in the order of the walk:
/// the files of a directory stand where the directory is listed.
pub fn find_python_files(root: &DirEntry) -> (r: Vec<String>)
    ensures
        names(r@) == python_files_under(*root),
{
    let mut files: Vec<String> = Vec::new();
    if root.is_dir {
        collect_python_files(&root.children, &mut files);
    }
    files
}

/// The components of `path`.
fn components(path: &str) -> (r: Vec<String>)
    ensures
        names(r@) == components_from(path@, 0, 0),
{
    let v = chars_of(path);
    let mut out: Vec<String> = Vec::new();
    let mut start: usize = 0;
    let mut i: usize = 0;
    while i < v.len()
        invariant
            start <= i <= v.len(),
            v@ == path@,
            components_from(path@, 0, 0) == names(out@) + components_from(
                path@,
                start as int,
                i as int,
            ),
        decreases v.len() - i,
    {
        let c = v[i];
        if c == '/' || c == '\\' {
            if start < i {
                let piece = path.substring_char(start, i).to_owned();
                out.push(piece);
            }
            start = i + 1;
        }
        i += 1;
    }
    if start < v.len() {
        let piece = path.substring_char(start, v.len()).to_owned();
        out.push(piece);
    }
    out
}

/// `path` as seen from `root`.
fn relative<'a>(path: &'a str, root: &str) -> (r: &'a str)
    ensures
        r@ == relative_to(path@, root@),
{
    let p = chars_of(path);
    let q = chars_of(root);
    if !starts_with(path, root) {
        return path;
    }
    let under = p.len() == q.len() || p[q.len()] == '/' || p[q.len()] == '\\' || (q.len() > 0 && (
    q[q.len() - 1] == '/' || q[q.len() - 1] == '\\'));
    if under {
        path.substring_char(q.len(), p.len())
    } else {
        path
    }
}

/// A file name without the extension of Python sources.
fn strip_extension(name: &str) -> (r: &str)
    ensures
        r@ == without_extension(name@),
{
    if ends_with(name, ".py") {
        let n = name.unicode_len();
        let e = ".py".unicode_len();
        name.substring_char(0, n - e)
    } else {
        name
    }
}

/// The dotted module path of the file `path` in the workspace `root`.
pub fn path_to_module(root: &str, path: &str) -> (r: String)
    ensures
        r@ == module_name_of(root@, path@),
{
    let parts = components(relative(path, root));
    let ghost all = names(parts@);
    let mut out = String::new();
    if parts.len() == 0 {
        return out;
    }
    let last = parts.len() - 1;
    let ghost wanted = module_parts(all);
    let mut n: usize = 0;
    while n < parts.len()
        invariant
            n <= parts.len(),
            last == parts.len() - 1,
            all == names(parts@),
            wanted == module_parts(all),
            wanted.len() == all.len(),
            out@ == joined(wanted.take(n as int), "."@),
        decreases parts.len() - n,
    {
        let piece = if n == last {
            strip_extension(parts[n].as_str())
        } else {
            parts[n].as_str()
        };
        proof {
            let now = wanted.take(n + 1);
            assert(now.drop_last() =~= wanted.take(n as int));
        }
        if n > 0 {
            out.append(".");
        }
        out.append(piece);
        n += 1;
    }
    assert(wanted.take(n as int) =~= wanted);
    out
}

/// Appends to `symbols` the symbols of the tree under `node`.
pub fn extract_symbols(node: &SyntaxNode, file_path: &str, module_name: &str, symbols: &mut Vec<Symbol>)
    ensures
        views(final(symbols)@) == views(old(symbols)@) + symbols_in(node@, file_path@, module_name@),
    decreases *node,
{
    let function = node.is_kind("function_definition");
    if function || node.is_kind("class_definition") {
        match node.child_by_field("name") {
            Some(name) => {
                let symbol = Symbol {
                    name: name.text.clone(),
                    kind: if function {
                        SymbolKind::Function
                    } else {
                        SymbolKind::Class
                    },
                    file_path: file_path.to_owned(),
                    line: node.line,
                    module_name: module_name.to_owned(),
                };
                symbols.push(symbol);
            },
            None => {},
        }
    }
    let ghost start = views(symbols@);
    let mut i: usize = 0;
    while i < node.children.len()
        invariant
            i <= node.children.len(),
            views(symbols@) == start + symbols_in_all(
                node@.children.take(i as int),
                file_path@,
                module_name@,
            ),
        decreases node.children.len() - i,
    {
        proof {
            lemma_symbols_in_all_next(node@.children, file_path@, module_name@, i as int);
        }
        extract_symbols(&node.children[i], file_path, module_name, symbols);
        i += 1;
    }
    proof {
        assert(node@.children.take(i as int) =~= node@.children);
    }
}

fn push_aliased(child: &SyntaxNode, list: &mut Vec<ImportedName>)
    ensures
        views(final(list)@) == views(old(list)@) + aliased_name(child@),
{
    match child.child_by_field("name") {
        Some(name) => {
            let alias = match child.child_by_field("alias") {
                Some(a) => Some(a.text.clone()),
                None => None,
            };
            let imported = ImportedName { name: name.text.clone(), alias };
            list.push(imported);
        },
        None => {
        },
    }
}

fn read_plain_import(node: &SyntaxNode, imports: &mut Vec<ImportStatement>)
    ensures
        views(final(imports)@) == views(old(imports)@) + plain_import(node@),
{
    let mut list: Vec<ImportedName> = Vec::new();
    let mut i: usize = 0;
    while i < node.children.len()
        invariant
            i <= node.children.len(),
            views(list@) == plain_names(node@.children.take(i as int)),
        decreases node.children.len() - i,
    {
        proof {
            lemma_plain_names_next(node@.children, i as int);
        }
        let child = &node.children[i];
        if child.is_kind("dotted_name") {
            let imported = ImportedName { name: child.text.clone(), alias: None };
            list.push(imported);
        } else if child.is_kind("aliased_import") {
            push_aliased(child, &mut list);
        }
        i += 1;
    }
    assert(node@.children.take(i as int) =~= node@.children);
    if list.len() > 0 {
        let statement = ImportStatement {
            module: list[0].name.clone(),
            names: list,
            is_from_import: false,
        };
        imports.push(statement);
    }
}

fn read_from_import(node: &SyntaxNode, imports: &mut Vec<ImportStatement>)
    ensures
        views(final(imports)@) == views(old(imports)@) + from_import(node@),
{
    let mut module = String::new();
    let mut list: Vec<ImportedName> = Vec::new();
    let mut i: usize = 0;
    assert(views(list@) =~= from_parts(node@.children.take(0)).names);
    while i < node.children.len()
        invariant
            i <= node.children.len(),
            (FromParts { module: module@, names: views(list@) }) == from_parts(
                node@.children.take(i as int),
            ),
        decreases node.children.len() - i,
    {
        proof {
            lemma_from_parts_next(node@.children, i as int);
        }
        let child = &node.children[i];
        let dotted = child.is_kind("dotted_name");
        if dotted && module.as_str().unicode_len() == 0 {
            module = child.text.clone();
        } else if dotted || child.is_kind("identifier") {
            if !same_text(child.text.as_str(), "from") && !same_text(child.text.as_str(), "import") {
                let imported = ImportedName { name: child.text.clone(), alias: None };
                proof {
                    lemma_views_push(list@, imported);
                }
                list.push(imported);
            }
        } else if child.is_kind("aliased_import") {
            push_aliased(child, &mut list);
        }
        i += 1;
    }
    assert(node@.children.take(i as int) =~= node@.children);
    if module.as_str().unicode_len() > 0 {
        let statement = ImportStatement { module, names: list, is_from_import: true };
        imports.push(statement);
    }
}

/// Appends to `imports` the imports of the tree under `node`.
pub fn collect_imports(node: &SyntaxNode, imports: &mut Vec<ImportStatement>)
    ensures
        views(final(imports)@) == views(old(imports)@) + imports_in(node@),
    decreases *node,
{
    if node.is_kind("import_statement") {
        read_plain_import(node, imports);
    } else if node.is_kind("import_from_statement") {
        read_from_import(node, imports);
    }
    let ghost start = views(imports@);
    let mut i: usize = 0;
    while i < node.children.len()
        invariant
            i <= node.children.len(),
            views(imports@) == start + imports_in_all(node@.children.take(i as int)),
        decreases node.children.len() - i,
    {
        proof {
            lemma_imports_in_all_next(node@.children, i as int);
        }
        collect_imports(&node.children[i], imports);
        i += 1;
    }
    proof {
        assert(node@.children.take(i as int) =~= node@.children);
    }
}

/// The imports of `tree`, in source order.
pub fn extract_imports(tree: &SyntaxNode) -> (r: Vec<ImportStatement>)
    ensures
        views(r@) == imports_in(tree@),
{
    let mut imports: Vec<ImportStatement> = Vec::new();
    collect_imports(tree, &mut imports);
    imports
}

fn find_local(symbols: &Vec<Symbol>, file: &str, name: &str) -> (r: usize)
    ensures
        r == local_index_from(views(symbols@), file@, name@, 0),
        r <= symbols.len(),
{
    let mut i: usize = 0;
    while i < symbols.len()
        invariant
            i <= symbols.len(),
            local_index_from(views(symbols@), file@, name@, 0) == local_index_from(
                views(symbols@),
                file@,
                name@,
                i as int,
            ),
        decreases symbols.len() - i,
    {
        if same_text(symbols[i].name.as_str(), name) && same_text(
            symbols[i].file_path.as_str(),
            file,
        ) {
            return i;
        }
        i += 1;
    }
    i
}

fn find_named(symbols: &Vec<Symbol>, name: &str) -> (r: usize)
    ensures
        r == named_index_from(views(symbols@), name@, 0),
        r <= symbols.len(),
{
    let mut i: usize = 0;
    while i < symbols.len()
        invariant
            i <= symbols.len(),
            named_index_from(views(symbols@), name@, 0) == named_index_from(
                views(symbols@),
                name@,
                i as int,
            ),
        decreases symbols.len() - i,
    {
        if same_text(symbols[i].name.as_str(), name) {
            return i;
        }
        i += 1;
    }
    i
}

fn find_fitting(symbols: &Vec<Symbol>, name: &str, module: &str) -> (r: usize)
    ensures
        r == fitting_index_from(views(symbols@), name@, module@, 0),
        r <= symbols.len(),
{
    let mut i: usize = 0;
    while i < symbols.len()
        invariant
            i <= symbols.len(),
            fitting_index_from(views(symbols@), name@, module@, 0) == fitting_index_from(
                views(symbols@),
                name@,
                module@,
                i as int,
            ),
        decreases symbols.len() - i,
    {
        if same_text(symbols[i].name.as_str(), name) && (ends_with(
            symbols[i].module_name.as_str(),
            module,
        ) || ends_with(module, symbols[i].module_name.as_str())) {
            return i;
        }
        i += 1;
    }
    i
}

fn find_imported(symbols: &Vec<Symbol>, name: &str, module: &str) -> (r: Option<usize>)
    ensures
        match r {
            Some(i) => imported_symbol(views(symbols@), name@, module@) == Some(i as int) && i
                < symbols.len(),
            None => imported_symbol(views(symbols@), name@, module@) is None,
        },
{
    let fit = find_fitting(symbols, name, module);
    if fit < symbols.len() {
        return Some(fit);
    }
    let any = find_named(symbols, name);
    if any < symbols.len() {
        Some(any)
    } else {
        None
    }
}

fn find_in_names(symbols: &Vec<Symbol>, import: &ImportStatement, name: &str) -> (r: Option<usize>)
    ensures
        match r {
            Some(i) => resolve_in_names(views(symbols@), import@, name@, 0) == Some(i as int) && i
                < symbols.len(),
            None => resolve_in_names(views(symbols@), import@, name@, 0) is None,
        },
{
    let mut j: usize = 0;
    while j < import.names.len()
        invariant
            j <= import.names.len(),
            resolve_in_names(views(symbols@), import@, name@, 0) == resolve_in_names(
                views(symbols@),
                import@,
                name@,
                j as int,
            ),
        decreases import.names.len() - j,
    {
        let imported = &import.names[j];
        let known_as = match &imported.alias {
            Some(alias) => alias.as_str(),
            None => imported.name.as_str(),
        };
        if same_text(known_as, name) {
            match find_imported(symbols, imported.name.as_str(), import.module.as_str()) {
                Some(found) => {
                    return Some(found);
                },
                None => {},
            }
        }
        j += 1;
    }
    None
}

fn find_in_imports(symbols: &Vec<Symbol>, imports: &Vec<ImportStatement>, name: &str) -> (r: Option<
    usize,
>)
    ensures
        match r {
            Some(i) => resolve_in_imports(views(symbols@), views(imports@), name@, 0) == Some(
                i as int,
            ) && i < symbols.len(),
            None => resolve_in_imports(views(symbols@), views(imports@), name@, 0) is None,
        },
{
    let mut i: usize = 0;
    while i < imports.len()
        invariant
            i <= imports.len(),
            resolve_in_imports(views(symbols@), views(imports@), name@, 0) == resolve_in_imports(
                views(symbols@),
                views(imports@),
                name@,
                i as int,
            ),
        decreases imports.len() - i,
    {
        match find_in_names(symbols, &imports[i], name) {
            Some(found) => {
                return Some(found);
            },
            None => {},
        }
        i += 1;
    }
    None
}

fn find_entry<'a>(entries: &'a Vec<FileImports>, file: &str) -> (r: Option<&'a Vec<ImportStatement>>)
    ensures
        match r {
            Some(imports) => imports_of(views(entries@), file@) == Some(views(imports@)),
            None => imports_of(views(entries@), file@) is None,
        },
{
    let mut j: usize = entries.len();
    while j > 0
        invariant
            j <= entries.len(),
            entry_cut(views(entries@), file@, entries.len() as int) == entry_cut(
                views(entries@),
                file@,
                j as int,
            ),
        decreases j,
    {
        if same_text(entries[j - 1].file_path.as_str(), file) {
            return Some(&entries[j - 1].imports);
        }
        j -= 1;
    }
    None
}

/// The index of a workspace.
pub struct ProjectIndexer {
    symbols: Vec<Symbol>,
    imports: Vec<FileImports>,
    workspace_root: String,
    parser: PythonParser,
}

impl ProjectIndexer {
    /// The symbols indexed, in the order they were met.
    pub closed spec fn symbols(&self) -> Seq<SymbolView> {
        views(self.symbols@)
    }

    /// The imports recorded, file after file.
    pub closed spec fn entries(&self) -> Seq<FileImportsView> {
        views(self.imports@)
    }

    /// The root of the workspace.
    pub closed spec fn root(&self) -> Seq<char> {
        self.workspace_root@
    }

    /// What the index holds.
    pub open spec fn state(&self) -> IndexState {
        IndexState { symbols: self.symbols(), entries: self.entries() }
    }

    /// An empty index of the workspace under `workspace_root`. It fails
    /// where no parser for Python can be made, and says what the parser
    /// said.
    pub fn new(workspace_root: String) -> (r: Result<Self, String>)
        ensures
            r matches Ok(index) ==> {
                &&& index.symbols() == Seq::<SymbolView>::empty()
                &&& index.entries() == Seq::<FileImportsView>::empty()
                &&& index.root() == workspace_root@
            },
            r matches Err(e) ==> is_language_failure(e@),
    {
        match PythonParser::new() {
            Ok(parser) => {
                let index = ProjectIndexer {
                    symbols: Vec::new(),
                    imports: Vec::new(),
                    workspace_root,
                    parser,
                };
                Ok(index)
            },
            Err(e) => Err(e),
        }
    }

    /// Indexes the file `file_path`, whose syntax tree is `tree`: its symbols
    /// join the index, and its imports are recorded in place of any recorded
    /// for it before.
    pub fn index_tree(&mut self, file_path: &str, tree: &SyntaxNode)
        ensures
            final(self).root() == old(self).root(),
            final(self).symbols() == old(self).symbols() + symbols_in(
                tree@,
                file_path@,
                module_name_of(old(self).root(), file_path@),
            ),
            final(self).entries() == old(self).entries().push(
                (FileImportsView { file_path: file_path@, imports: imports_in(tree@) }),
            ),
    {
        let module = path_to_module(self.workspace_root.as_str(), file_path);
        extract_symbols(tree, file_path, module.as_str(), &mut self.symbols);
        let entry = FileImports { file_path: file_path.to_owned(), imports: extract_imports(tree) };
        self.imports.push(entry);
    }

    /// Indexes the file `file_path`, whose text is `source`, by its syntax
    /// tree; it fails where the text has none, and the index is then as it
    /// was.
    pub fn index_file(&mut self, file_path: &str, source: &str) -> (r: Result<(), String>)
        ensures
            final(self).root() == old(self).root(),
            final(self).state() == index_step(
                old(self).state(),
                old(self).root(),
                read_file(file_path@, source@),
            ),
            r is Ok <==> syntax_tree(source@) is Some,
            r matches Err(e) ==> e@ == "Failed to parse"@,
    {
        match self.parser.parse(source) {
            Ok(tree) => {
                self.index_tree(file_path, &tree);
                Ok(())
            },
            Err(_) => Err("Failed to parse".to_owned()),
        }
    }

    /// Indexes `files`, one after the other, and counts those that have a
    /// syntax tree.
    pub fn index_workspace(&mut self, files: &Vec<SourceFile>) -> (r: Result<usize, String>)
        ensures
            final(self).root() == old(self).root(),
            final(self).state() == indexed(old(self).state(), old(self).root(), read_files(files@)),
            r is Ok,
            r->Ok_0 == read_count(read_files(files@)),
    {
        let mut count: usize = 0;
        let mut i: usize = 0;
        let ghost all = read_files(files@);
        while i < files.len()
            invariant
                i <= files.len(),
                count <= i,
                all == read_files(files@),
                count == read_count(all.take(i as int)),
                self.root() == old(self).root(),
                self.state() == indexed(old(self).state(), old(self).root(), all.take(i as int)),
            decreases files.len() - i,
        {
            proof {
                assert(all.take(i + 1).drop_last() =~= all.take(i as int));
                assert(all.take(i + 1).last() == read_file(
                    files@[i as int].path@,
                    files@[i as int].source@,
                ));
            }
            match self.index_file(files[i].path.as_str(), files[i].source.as_str()) {
                Ok(()) => {
                    count += 1;
                },
                Err(_) => {},
            }
            i += 1;
        }
        proof {
            assert(all.take(i as int) =~= all);
        }
        Ok(count)
    }

    /// The symbol that `symbol_name`, used in `from_file`, stands for.
    pub fn resolve_symbol(&self, from_file: &str, symbol_name: &str) -> (r: Option<&Symbol>)
        ensures
            match r {
                Some(symbol) => resolved_index(
                    self.symbols(),
                    self.entries(),
                    from_file@,
                    symbol_name@,
                ) matches Some(i) && 0 <= i < self.symbols().len() && self.symbols()[i]
                    == symbol@,
                None => resolved_index(self.symbols(), self.entries(), from_file@, symbol_name@)
                    is None,
            },
    {
        let local = find_local(&self.symbols, from_file, symbol_name);
        if local < self.symbols.len() {
            return Some(&self.symbols[local]);
        }
        match find_entry(&self.imports, from_file) {
            Some(imports) => {
                match find_in_imports(&self.symbols, imports, symbol_name) {
                    Some(found) => {
                        return Some(&self.symbols[found]);
                    },
                    None => {},
                }
            },
            None => {},
        }
        let any = find_named(&self.symbols, symbol_name);
        if any < self.symbols.len() {
            Some(&self.symbols[any])
        } else {
            None
        }
    }

    /// All symbols of the index, in the order they were met.
    pub fn get_all_symbols(&self) -> (r: &Vec<Symbol>)
        ensures
            views(r@) == self.symbols(),
    {
        &self.symbols
    }

    /// The imports recorded for `file_path`.
    pub fn get_file_imports(&self, file_path: &str) -> (r: Option<&Vec<ImportStatement>>)
        ensures
            match r {
                Some(imports) => imports_of(self.entries(), file_path@) == Some(views(imports@)),
                None => imports_of(self.entries(), file_path@) is None,
            },
    {
        find_entry(&self.imports, file_path)
    }
}

} // verus!
