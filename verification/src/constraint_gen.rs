//! The constraint generator: an attack path written as a satisfiability
//! script over strings, whose goal is that the sink holds an injection.

use crate::model::{path_views, PathNode, PathNodeView};
use crate::text::{
    append3, chars_of, cut_at, first_char, first_index, has_char, is_alphanumeric, is_numeric,
    is_one_of, join2, join3, lemma_views_push, names, numeric, pieces_of, split, split_once,
    trim, trim_by, trim_of, trim_start_by, trim_start_of, trimmed, word_char, CharClass,
};
use vstd::prelude::*;
use vstd::string::StringExecFns;

verus! {

/// Whether `name` can stand as a constant of a script: not empty, no digit
/// first, and made of letters, digits and underscores.
pub open spec fn valid_name(name: Seq<char>) -> bool {
    &&& name.len() > 0
    &&& !numeric(name[0])
    &&& forall|i: int| 0 <= i < name.len() ==> word_char(#[trigger] name[i])
}

/// The name that the line `code` assigns to: what stands before its first
/// `=`, trimmed.
pub open spec fn assigned_name(code: Seq<char>) -> Option<Seq<char>> {
    match cut_at(code, '=') {
        Some(sides) => Some(trimmed(sides.0)),
        None => None,
    }
}

/// The names that the first `n` lines of `codes` declare, each once, in
/// order.
pub open spec fn declared_names(codes: Seq<Seq<char>>, n: int) -> Seq<Seq<char>>
    decreases n,
{
    if n <= 0 {
        Seq::empty()
    } else {
        let before = declared_names(codes, n - 1);
        match assigned_name(codes[n - 1]) {
            Some(name) => if !before.contains(name) && valid_name(name) {
                before.push(name)
            } else {
                before
            },
            None => before,
        }
    }
}

/// The line that declares `name`.
pub open spec fn declaration(name: Seq<char>) -> Seq<char> {
    "(declare-const "@ + name + " String)\n"@
}

/// The lines that declare `names`, in order.
pub open spec fn declarations(names: Seq<Seq<char>>) -> Seq<char>
    decreases names.len(),
{
    if names.len() == 0 {
        Seq::empty()
    } else {
        declarations(names.drop_last()) + declaration(names.last())
    }
}

/// A literal of the script: `text` between double quotes, after a space;
/// nothing where `text` is empty.
pub open spec fn literal_term(text: Seq<char>) -> Seq<char> {
    if text.len() > 0 {
        " \""@ + text + "\""@
    } else {
        Seq::empty()
    }
}

/// The terms that one piece behind a `{` gives: the name before its `}`,
/// then the literal behind it; nothing where the piece has no `}`.
pub open spec fn hole_terms(piece: Seq<char>) -> Seq<char> {
    match cut_at(piece, '}') {
        Some(sides) => " "@ + trimmed(sides.0) + literal_term(sides.1),
        None => Seq::empty(),
    }
}

/// The terms of the pieces from the second to the `n`-th.
pub open spec fn holes_terms(pieces: Seq<Seq<char>>, n: int) -> Seq<char>
    decreases n,
{
    if n <= 1 {
        Seq::empty()
    } else {
        holes_terms(pieces, n - 1) + hole_terms(pieces[n - 1])
    }
}

/// What stands between the quotes of the formatted string `expr`.
pub open spec fn fstring_content(expr: Seq<char>) -> Seq<char> {
    trim_of(trim_start_of(expr, CharClass::LetterF), CharClass::Quote)
}

/// The term of the script for the formatted string `expr`: a concatenation
/// of its literal pieces and the names in its braces, or one literal where it
/// has no brace.
pub open spec fn fstring_term(expr: Seq<char>) -> Seq<char> {
    let content = fstring_content(expr);
    let pieces = pieces_of(content, '{');
    if pieces.len() <= 1 {
        "\""@ + content + "\""@
    } else {
        "(str.++"@ + literal_term(pieces[0]) + holes_terms(pieces, pieces.len() as int) + ")"@
    }
}

/// Whether `expr` is written as a formatted string: an `f`, and a quote
/// somewhere.
pub open spec fn is_fstring(expr: Seq<char>) -> bool {
    expr.len() > 0 && expr[0] == 'f' && (first_index(expr, '"') < expr.len() || first_index(
        expr,
        '\'',
    ) < expr.len())
}

/// Whether `expr` begins with a quote.
pub open spec fn is_quoted(expr: Seq<char>) -> bool {
    expr.len() > 0 && (expr[0] == '"' || expr[0] == '\'')
}

/// The line that asserts `var` equal to `term`.
pub open spec fn equality(var: Seq<char>, term: Seq<char>) -> Seq<char> {
    "(assert (= "@ + var + " "@ + term + "))\n"@
}

/// The assertion that the right side `expr` gives for `var`: a formatted
/// string gives its term, a quoted string its contents, a declared name
/// itself, and anything else nothing.
pub open spec fn assertion_for(var: Seq<char>, expr: Seq<char>, declared: Seq<Seq<char>>) -> Seq<
    char,
> {
    if is_fstring(expr) {
        equality(var, fstring_term(expr))
    } else if is_quoted(expr) {
        equality(var, "\""@ + trim_of(expr, CharClass::Quote) + "\""@)
    } else if declared.contains(expr) {
        equality(var, expr)
    } else {
        Seq::empty()
    }
}

/// The assertion that the line `code` gives, if it is an assignment.
pub open spec fn assertion(code: Seq<char>, declared: Seq<Seq<char>>) -> Seq<char> {
    match cut_at(code, '=') {
        Some(sides) => assertion_for(trimmed(sides.0), trimmed(sides.1), declared),
        None => Seq::empty(),
    }
}

/// The assertions of the first `n` lines of `codes`.
pub open spec fn assertions(codes: Seq<Seq<char>>, n: int, declared: Seq<Seq<char>>) -> Seq<char>
    decreases n,
{
    if n <= 0 {
        Seq::empty()
    } else {
        assertions(codes, n - 1, declared) + assertion(codes[n - 1], declared)
    }
}

/// The name that the goal speaks of: `sink_var` where it is declared, else
/// the name declared last, else `sink_var` as it is.
pub open spec fn target_name(declared: Seq<Seq<char>>, sink_var: Seq<char>) -> Seq<char> {
    if declared.contains(sink_var) {
        sink_var
    } else if declared.len() > 0 {
        declared.last()
    } else {
        sink_var
    }
}

/// The goal: `target` holds the injection.
pub open spec fn goal(target: Seq<char>) -> Seq<char> {
    "(assert (str.contains "@ + target + " \"' OR '1'='1\"))\n"@
}

/// The code of each row of a path.
pub open spec fn path_codes(path: Seq<PathNodeView>) -> Seq<Seq<char>> {
    path.map_values(|row: PathNodeView| row.code)
}

/// The script for the lines `codes` and the sink `sink_var`: the logic, the
/// declarations, the assertions, the goal, and the two commands.
pub open spec fn smt_script(codes: Seq<Seq<char>>, sink_var: Seq<char>) -> Seq<char> {
    let declared = declared_names(codes, codes.len() as int);
    "(set-logic QF_S)\n"@ + declarations(declared) + assertions(codes, codes.len() as int, declared)
        + goal(target_name(declared, sink_var)) + "(check-sat)\n"@ + "(get-model)\n"@
}

/// The script is a function of the codes of the path and of the sink's name:
/// two paths with the same codes, row for row, give the same script.
pub proof fn lemma_script_is_a_function_of_the_codes(
    first: Seq<PathNodeView>,
    second: Seq<PathNodeView>,
    sink_var: Seq<char>,
)
    requires
        first.len() == second.len(),
        forall|k: int| 0 <= k < first.len() ==> first[k].code == second[k].code,
    ensures
        smt_script(path_codes(first), sink_var) == smt_script(path_codes(second), sink_var),
{
    assert(path_codes(first) =~= path_codes(second));
}

/// No name is declared twice.
pub proof fn lemma_declared_once(codes: Seq<Seq<char>>, n: int)
    ensures
        declared_names(codes, n).no_duplicates(),
        forall|k: int|
            0 <= k < declared_names(codes, n).len() ==> valid_name(
                #[trigger] declared_names(codes, n)[k],
            ),
    decreases n,
{
    if n > 0 {
        lemma_declared_once(codes, n - 1);
    }
}

/// Whether `name` can stand as a constant of a script.
pub fn is_valid_var_name(name: &str) -> (r: bool)
    ensures
        r == valid_name(name@),
{
    let v = chars_of(name);
    if v.len() == 0 {
        return false;
    }
    if is_numeric(v[0]) {
        return false;
    }
    let mut i: usize = 0;
    while i < v.len()
        invariant
            i <= v.len(),
            v@ == name@,
            forall|k: int| 0 <= k < i ==> word_char(#[trigger] name@[k]),
        decreases v.len() - i,
    {
        let c = v[i];
        if !(is_alphanumeric(c) || c == '_') {
            return false;
        }
        i += 1;
    }
    true
}

fn literal_text(text: &str) -> (r: String)
    ensures
        r@ == literal_term(text@),
{
    if text.unicode_len() > 0 {
        join3(" \"", text, "\"")
    } else {
        String::new()
    }
}

fn hole_text(piece: &str) -> (r: String)
    ensures
        r@ == hole_terms(piece@),
{
    match split_once(piece, '}') {
        Some((var, literal)) => {
            let mut out = join2(" ", trim(var));
            let tail = literal_text(literal);
            out.append(tail.as_str());
            out
        },
        None => String::new(),
    }
}

fn equality_text(var: &str, term: &str) -> (r: String)
    ensures
        r@ == equality(var@, term@),
{
    let mut out = join2("(assert (= ", var);
    out.append(" ");
    out.append(term);
    out.append("))\n");
    out
}

/// The script generator. It holds nothing.
pub struct ConstraintGenerator;

impl ConstraintGenerator {
    /// A generator.
    pub fn new() -> Self {
        ConstraintGenerator
    }

    /// The term of the script for the formatted string `expr`.
    pub fn parse_f_string(&self, expr: &str) -> (r: String)
        ensures
            r@ == fstring_term(expr@),
    {
        let content = trim_by(trim_start_by(expr, CharClass::LetterF), CharClass::Quote);
        let pieces = split(content, '{');
        if pieces.len() <= 1 {
            return join3("\"", content, "\"");
        }
        let mut out = "(str.++".to_owned();
        let head = literal_text(pieces[0].as_str());
        out.append(head.as_str());
        let ghost start = out@;
        let mut n: usize = 1;
        while n < pieces.len()
            invariant
                1 <= n <= pieces.len(),
                names(pieces@) == pieces_of(content@, '{'),
                out@ == start + holes_terms(names(pieces@), n as int),
            decreases pieces.len() - n,
        {
            let hole = hole_text(pieces[n].as_str());
            out.append(hole.as_str());
            n += 1;
        }
        out.append(")");
        out
    }

    /// The assertion that the right side `expr` gives for `var`.
    fn assertion_text(&self, var: &str, expr: &str, declared: &Vec<String>) -> (r: String)
        ensures
            r@ == assertion_for(var@, expr@, names(declared@)),
    {
        let first = first_char(expr);
        if first == Some('f') && (has_char(expr, '"') || has_char(expr, '\'')) {
            let term = self.parse_f_string(expr);
            equality_text(var, term.as_str())
        } else if first == Some('"') || first == Some('\'') {
            let term = join3("\"", trim_by(expr, CharClass::Quote), "\"");
            equality_text(var, term.as_str())
        } else if is_one_of(expr, declared) {
            equality_text(var, expr)
        } else {
            String::new()
        }
    }

    /// The script for the path `nodes` and the sink `sink_var`.
    pub fn generate_smt(&self, nodes: &[PathNode], sink_var: &str) -> (r: String)
        ensures
            r@ == smt_script(path_codes(path_views(nodes@)), sink_var@),
    {
        let ghost codes = path_codes(path_views(nodes@));
        let mut script = "(set-logic QF_S)\n".to_owned();
        let mut declared: Vec<String> = Vec::new();
        let mut n: usize = 0;
        while n < nodes.len()
            invariant
                n <= nodes.len(),
                codes == path_codes(path_views(nodes@)),
                names(declared@) == declared_names(codes, n as int),
                script@ == "(set-logic QF_S)\n"@ + declarations(names(declared@)),
            decreases nodes.len() - n,
        {
            match split_once(nodes[n].code.as_str(), '=') {
                Some((lhs, _rhs)) => {
                    let name = trim(lhs);
                    if !is_one_of(name, &declared) && is_valid_var_name(name) {
                        let owned = name.to_owned();
                        proof {
                            lemma_views_push(declared@, owned);
                            assert(names(declared@).push(owned@).drop_last() =~= names(declared@));
                        }
                        append3(&mut script, "(declare-const ", name, " String)\n");
                        declared.push(owned);
                    }
                },
                None => {},
            }
            n += 1;
        }
        let ghost all = names(declared@);
        let ghost head = script@;
        let mut n: usize = 0;
        while n < nodes.len()
            invariant
                n <= nodes.len(),
                codes == path_codes(path_views(nodes@)),
                all == names(declared@),
                script@ == head + assertions(codes, n as int, all),
            decreases nodes.len() - n,
        {
            match split_once(nodes[n].code.as_str(), '=') {
                Some((lhs, rhs)) => {
                    let line = self.assertion_text(trim(lhs), trim(rhs), &declared);
                    script.append(line.as_str());
                },
                None => {},
            }
            n += 1;
        }
        let target = if is_one_of(sink_var, &declared) {
            sink_var
        } else if declared.len() > 0 {
            declared[declared.len() - 1].as_str()
        } else {
            sink_var
        };
        append3(&mut script, "(assert (str.contains ", target, " \"' OR '1'='1\"))\n");
        script.append("(check-sat)\n");
        script.append("(get-model)\n");
        script
    }
}

} // verus!
