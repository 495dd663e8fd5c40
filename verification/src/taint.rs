//! Taint as reachability: a name is tainted when a chain of derivations
//! leads from it to a name that an attacker controls.

use crate::slicer::{def_views, DefinitionView, SourceView, ValueSource, VariableDefinition};
use crate::text::{is_one_of, lemma_push_keeps, lemma_views_push, names, same_text};
use vstd::prelude::*;

verus! {

/// A source that an attacker controls: input, or a parameter.
pub open spec fn is_entry(source: SourceView) -> bool {
    source is UserInput || source is Parameter
}

/// Definition `i` defines `name` from a source that an attacker controls.
pub open spec fn entry_at(defs: Seq<DefinitionView>, i: int, name: Seq<char>) -> bool {
    0 <= i < defs.len() && defs[i].name == name && is_entry(defs[i].value_source)
}

/// `name` is tainted by itself: it is one of `seeds`, or one of its
/// definitions comes from a source that an attacker controls.
pub open spec fn seeded(defs: Seq<DefinitionView>, seeds: Seq<Seq<char>>, name: Seq<char>) -> bool {
    seeds.contains(name) || exists|i: int| entry_at(defs, i, name)
}

/// Definition `i` derives `from` from other names, and the `j`-th of them is
/// `to`.
pub open spec fn edge_at(
    defs: Seq<DefinitionView>,
    i: int,
    j: int,
    from: Seq<char>,
    to: Seq<char>,
) -> bool {
    &&& 0 <= i < defs.len()
    &&& defs[i].name == from
    &&& defs[i].value_source is Derived
    &&& 0 <= j < defs[i].dependencies.len()
    &&& defs[i].dependencies[j] == to
}

/// Some definition derives `from` from `to`.
pub open spec fn depends_on(defs: Seq<DefinitionView>, from: Seq<char>, to: Seq<char>) -> bool {
    exists|i: int, j: int| edge_at(defs, i, j, from, to)
}

/// Name `k` of `chain` depends on the next.
pub open spec fn link(defs: Seq<DefinitionView>, chain: Seq<Seq<char>>, k: int) -> bool {
    depends_on(defs, chain[k], chain[k + 1])
}

/// Each name of `chain` depends on the next.
pub open spec fn is_chain(defs: Seq<DefinitionView>, chain: Seq<Seq<char>>) -> bool {
    chain.len() >= 1 && forall|k: int| 0 <= k < chain.len() - 1 ==> #[trigger] link(defs, chain, k)
}

/// `chain` leads from `from` to `to`.
pub open spec fn leads(
    defs: Seq<DefinitionView>,
    chain: Seq<Seq<char>>,
    from: Seq<char>,
    to: Seq<char>,
) -> bool {
    is_chain(defs, chain) && chain[0] == from && chain.last() == to
}

/// A chain of derivations leads from `from` to `to`.
pub open spec fn reaches(defs: Seq<DefinitionView>, from: Seq<char>, to: Seq<char>) -> bool {
    exists|chain: Seq<Seq<char>>| leads(defs, chain, from, to)
}

/// `to` is tainted by itself and a chain leads from `name` to it.
pub open spec fn taints(
    defs: Seq<DefinitionView>,
    seeds: Seq<Seq<char>>,
    name: Seq<char>,
    to: Seq<char>,
) -> bool {
    reaches(defs, name, to) && seeded(defs, seeds, to)
}

/// `name` is tainted: a chain of derivations leads from it to a name that is
/// tainted by itself. A name reaches itself by the chain of one.
pub open spec fn tainted(defs: Seq<DefinitionView>, seeds: Seq<Seq<char>>, name: Seq<char>) -> bool {
    exists|to: Seq<char>| taints(defs, seeds, name, to)
}

/// `a` depends on `b`, and `b` is tainted.
pub open spec fn taint_step(
    defs: Seq<DefinitionView>,
    seeds: Seq<Seq<char>>,
    a: Seq<char>,
    b: Seq<char>,
) -> bool {
    depends_on(defs, a, b) && tainted(defs, seeds, b)
}

/// Every dependency that a derivation of `x` reads is one of `found`.
pub open spec fn expanded(defs: Seq<DefinitionView>, found: Seq<Seq<char>>, x: Seq<char>) -> bool {
    forall|i: int, j: int|
        edge_at(defs, i, j, x, #[trigger] defs[i].dependencies[j]) ==> found.contains(
            defs[i].dependencies[j],
        )
}

/// How many of `deps` are not among `found`.
pub open spec fn deps_missing(deps: Seq<Seq<char>>, found: Seq<Seq<char>>) -> nat
    decreases deps.len(),
{
    if deps.len() == 0 {
        0
    } else {
        deps_missing(deps.drop_last(), found) + if found.contains(deps.last()) {
            0nat
        } else {
            1nat
        }
    }
}

/// How many dependencies of `defs`, counted with repeats, are not among
/// `found`.
pub open spec fn slots_missing(defs: Seq<DefinitionView>, found: Seq<Seq<char>>) -> nat
    decreases defs.len(),
{
    if defs.len() == 0 {
        0
    } else {
        slots_missing(defs.drop_last(), found) + deps_missing(defs.last().dependencies, found)
    }
}

/// A name reaches itself.
pub proof fn lemma_reaches_itself(defs: Seq<DefinitionView>, a: Seq<char>)
    ensures
        reaches(defs, a, a),
{
    let chain = seq![a];
    assert(leads(defs, chain, a, a));
}

/// What reaches a name reaches what the name depends on.
pub proof fn lemma_reaches_step(defs: Seq<DefinitionView>, a: Seq<char>, b: Seq<char>, c: Seq<char>)
    requires
        reaches(defs, a, b),
        depends_on(defs, b, c),
    ensures
        reaches(defs, a, c),
{
    let chain = choose|chain: Seq<Seq<char>>| leads(defs, chain, a, b);
    let longer = chain.push(c);
    assert forall|k: int| 0 <= k < longer.len() - 1 implies #[trigger] link(defs, longer, k) by {
        if k < chain.len() - 1 {
            assert(link(defs, chain, k));
        }
    }
    assert(leads(defs, longer, a, c));
}

/// A name that is tainted by itself is tainted.
pub proof fn lemma_seeded_is_tainted(defs: Seq<DefinitionView>, seeds: Seq<Seq<char>>, a: Seq<char>)
    requires
        seeded(defs, seeds, a),
    ensures
        tainted(defs, seeds, a),
{
    lemma_reaches_itself(defs, a);
    assert(taints(defs, seeds, a, a));
}

/// A name that depends on a tainted name is tainted.
pub proof fn lemma_taint_flows(
    defs: Seq<DefinitionView>,
    seeds: Seq<Seq<char>>,
    a: Seq<char>,
    b: Seq<char>,
)
    requires
        depends_on(defs, a, b),
        tainted(defs, seeds, b),
    ensures
        tainted(defs, seeds, a),
{
    let to = choose|to: Seq<char>| taints(defs, seeds, b, to);
    let chain = choose|chain: Seq<Seq<char>>| leads(defs, chain, b, to);
    let longer = seq![a] + chain;
    assert forall|k: int| 0 <= k < longer.len() - 1 implies #[trigger] link(defs, longer, k) by {
        if k == 0 {
            assert(longer[0] == a);
            assert(longer[1] == chain[0]);
        } else {
            assert(link(defs, chain, k - 1));
            assert(longer[k] == chain[k - 1]);
            assert(longer[k + 1] == chain[k]);
        }
    }
    assert(longer.last() == chain.last());
    assert(leads(defs, longer, a, to));
    assert(taints(defs, seeds, a, to));
}

/// A tainted name is tainted by itself or depends on a tainted name.
pub proof fn lemma_taint_has_cause(defs: Seq<DefinitionView>, seeds: Seq<Seq<char>>, a: Seq<char>)
    requires
        tainted(defs, seeds, a),
    ensures
        seeded(defs, seeds, a) || exists|b: Seq<char>| taint_step(defs, seeds, a, b),
{
    let to = choose|to: Seq<char>| taints(defs, seeds, a, to);
    let chain = choose|chain: Seq<Seq<char>>| leads(defs, chain, a, to);
    if chain.len() > 1 {
        let rest = chain.subrange(1, chain.len() as int);
        assert forall|k: int| 0 <= k < rest.len() - 1 implies #[trigger] link(defs, rest, k) by {
            assert(link(defs, chain, k + 1));
        }
        assert(leads(defs, rest, chain[1], to));
        assert(taints(defs, seeds, chain[1], to));
        assert(link(defs, chain, 0));
        assert(taint_step(defs, seeds, a, chain[1]));
    }
}

/// The rule of taint: a name is tainted exactly when it is tainted by itself
/// or a derivation of it reads a tainted name.
pub proof fn lemma_taint_rule(defs: Seq<DefinitionView>, seeds: Seq<Seq<char>>, a: Seq<char>)
    ensures
        tainted(defs, seeds, a) <==> (seeded(defs, seeds, a) || exists|b: Seq<char>|
            taint_step(defs, seeds, a, b)),
{
    if tainted(defs, seeds, a) {
        lemma_taint_has_cause(defs, seeds, a);
    }
    if seeded(defs, seeds, a) {
        lemma_seeded_is_tainted(defs, seeds, a);
    }
    if exists|b: Seq<char>| taint_step(defs, seeds, a, b) {
        let b = choose|b: Seq<char>| taint_step(defs, seeds, a, b);
        lemma_taint_flows(defs, seeds, a, b);
    }
}

proof fn lemma_chain_stays_inside(
    defs: Seq<DefinitionView>,
    found: Seq<Seq<char>>,
    chain: Seq<Seq<char>>,
    k: int,
)
    requires
        is_chain(defs, chain),
        found.contains(chain[0]),
        forall|x: Seq<char>| found.contains(x) ==> #[trigger] expanded(defs, found, x),
        0 <= k < chain.len(),
    ensures
        found.contains(chain[k]),
    decreases k,
{
    if k > 0 {
        lemma_chain_stays_inside(defs, found, chain, k - 1);
        assert(link(defs, chain, k - 1));
        let a = chain[k - 1];
        assert(expanded(defs, found, a));
    }
}

/// A set of names that holds `name`, none of them tainted by itself, and
/// with each name every dependency of its derivations, shows that `name` is
/// not tainted.
pub proof fn lemma_closed_set_is_clean(
    defs: Seq<DefinitionView>,
    seeds: Seq<Seq<char>>,
    found: Seq<Seq<char>>,
    name: Seq<char>,
)
    requires
        found.contains(name),
        forall|x: Seq<char>| found.contains(x) ==> !#[trigger] seeded(defs, seeds, x),
        forall|x: Seq<char>| found.contains(x) ==> #[trigger] expanded(defs, found, x),
    ensures
        !tainted(defs, seeds, name),
{
    if tainted(defs, seeds, name) {
        let to = choose|to: Seq<char>| taints(defs, seeds, name, to);
        let chain = choose|chain: Seq<Seq<char>>| leads(defs, chain, name, to);
        lemma_chain_stays_inside(defs, found, chain, chain.len() - 1);
    }
}

proof fn lemma_deps_missing_push(deps: Seq<Seq<char>>, found: Seq<Seq<char>>, x: Seq<char>)
    ensures
        deps_missing(deps, found.push(x)) <= deps_missing(deps, found),
        deps.contains(x) && !found.contains(x) ==> deps_missing(deps, found.push(x))
            < deps_missing(deps, found),
    decreases deps.len(),
{
    lemma_push_keeps(found, x);
    if deps.len() > 0 {
        let rest = deps.drop_last();
        lemma_deps_missing_push(rest, found, x);
        if deps.contains(x) && !found.contains(x) {
            let i = choose|i: int| 0 <= i < deps.len() && deps[i] == x;
            if i < deps.len() - 1 {
                assert(rest[i] == x);
            }
        }
    }
}

proof fn lemma_slots_missing_push(
    defs: Seq<DefinitionView>,
    found: Seq<Seq<char>>,
    x: Seq<char>,
    at: int,
)
    requires
        0 <= at < defs.len() ==> defs[at].dependencies.contains(x) && !found.contains(x),
    ensures
        slots_missing(defs, found.push(x)) <= slots_missing(defs, found),
        0 <= at < defs.len() ==> slots_missing(defs, found.push(x)) < slots_missing(defs, found),
    decreases defs.len(),
{
    if defs.len() > 0 {
        let rest = defs.drop_last();
        lemma_deps_missing_push(defs.last().dependencies, found, x);
        if 0 <= at < defs.len() - 1 {
            lemma_slots_missing_push(rest, found, x, at);
        } else {
            lemma_slots_missing_push(rest, found, x, -1);
        }
    }
}

fn is_entry_source(source: &ValueSource) -> (r: bool)
    ensures
        r == is_entry(source@),
{
    match source {
        ValueSource::UserInput(_) => true,
        ValueSource::Parameter => true,
        _ => false,
    }
}

/// Whether `def` takes its value from a source that an attacker controls.
pub fn is_entry_source_of(def: &VariableDefinition) -> (r: bool)
    ensures
        r == is_entry(def@.value_source),
{
    is_entry_source(&def.value_source)
}

fn is_derived(source: &ValueSource) -> (r: bool)
    ensures
        r == (source@ is Derived),
{
    match source {
        ValueSource::Derived => true,
        _ => false,
    }
}

/// Whether `name` is tainted by itself.
pub fn is_seeded(defs: &Vec<VariableDefinition>, seeds: &Vec<String>, name: &str) -> (r: bool)
    ensures
        r == seeded(def_views(defs@), names(seeds@), name@),
{
    if is_one_of(name, seeds) {
        return true;
    }
    let mut i: usize = 0;
    while i < defs.len()
        invariant
            i <= defs.len(),
            forall|k: int| 0 <= k < i ==> !entry_at(def_views(defs@), k, name@),
        decreases defs.len() - i,
    {
        if same_text(defs[i].name.as_str(), name) && is_entry_source(&defs[i].value_source) {
            assert(entry_at(def_views(defs@), i as int, name@));
            return true;
        }
        i += 1;
    }
    false
}

/// What the search for taint keeps true of the names it has found, of which
/// the first `done` have been looked into.
pub open spec fn search_holds(
    defs: Seq<DefinitionView>,
    seeds: Seq<Seq<char>>,
    name: Seq<char>,
    found: Seq<Seq<char>>,
    done: int,
) -> bool {
    &&& 0 <= done <= found.len()
    &&& found.len() >= 1
    &&& found[0] == name
    &&& forall|k: int| 0 <= k < found.len() ==> reaches(defs, name, #[trigger] found[k])
    &&& forall|k: int| 0 <= k < done ==> !seeded(defs, seeds, #[trigger] found[k])
    &&& forall|k: int| 0 <= k < done ==> expanded(defs, found, #[trigger] found[k])
}

/// Every dependency of the derivations of `x` before definition `di`, and of
/// the first `dj` of definition `di`, is one of `found`.
pub open spec fn expanded_up_to(
    defs: Seq<DefinitionView>,
    found: Seq<Seq<char>>,
    x: Seq<char>,
    di: int,
    dj: int,
) -> bool {
    forall|i: int, j: int|
        edge_at(defs, i, j, x, #[trigger] defs[i].dependencies[j]) && (i < di || (i == di && j
            < dj)) ==> found.contains(defs[i].dependencies[j])
}

/// Looks into definition `di`: where it derives name `at` of `found`, its
/// dependencies that are new join `found`.
fn expand_definition(
    defs: &Vec<VariableDefinition>,
    di: usize,
    found: &mut Vec<String>,
    at: usize,
    Ghost(seeds): Ghost<Seq<Seq<char>>>,
)
    requires
        di < defs.len(),
        at < old(found).len(),
        search_holds(def_views(defs@), seeds, names(old(found)@)[0], names(old(found)@), at as int),
        expanded_up_to(
            def_views(defs@),
            names(old(found)@),
            names(old(found)@)[at as int],
            di as int,
            0,
        ),
    ensures
        final(found).len() >= old(found).len(),
        names(final(found)@)[at as int] == names(old(found)@)[at as int],
        search_holds(
            def_views(defs@),
            seeds,
            names(old(found)@)[0],
            names(final(found)@),
            at as int,
        ),
        expanded_up_to(
            def_views(defs@),
            names(final(found)@),
            names(old(found)@)[at as int],
            di + 1,
            0,
        ),
        slots_missing(def_views(defs@), names(final(found)@)) + final(found).len()
            <= slots_missing(def_views(defs@), names(old(found)@)) + old(found).len(),
{
    let ghost dv = def_views(defs@);
    let ghost name = names(found@)[0];
    let ghost cur = names(found@)[at as int];
    let def = &defs[di];
    if !(same_text(def.name.as_str(), found[at].as_str()) && is_derived(&def.value_source)) {
        return ;
    }
    let mut j: usize = 0;
    while j < def.dependencies.len()
        invariant
            j <= def.dependencies.len(),
            di < defs.len(),
            dv == def_views(defs@),
            def == &defs@[di as int],
            dv[di as int] == def@,
            def@.name == cur,
            def@.value_source is Derived,
            at < found.len(),
            found.len() >= old(found).len(),
            names(found@)[at as int] == cur,
            name == names(old(found)@)[0],
            search_holds(dv, seeds, name, names(found@), at as int),
            expanded_up_to(dv, names(found@), cur, di as int, j as int),
            slots_missing(dv, names(found@)) + found.len() <= slots_missing(
                dv,
                names(old(found)@),
            ) + old(found).len(),
        decreases def.dependencies.len() - j,
    {
        let dep = &def.dependencies[j];
        let ghost before = names(found@);
        if !is_one_of(dep.as_str(), found) {
            proof {
                assert(edge_at(dv, di as int, j as int, cur, dep@));
                lemma_reaches_step(dv, name, cur, dep@);
                lemma_slots_missing_push(dv, before, dep@, di as int);
                lemma_views_push(found@, *dep);
                lemma_push_keeps(before, dep@);
            }
            found.push(dep.clone());
        }
        j += 1;
    }
}

/// Whether `name` is tainted: the names that it reaches are found one by
/// one, each looked into once, until one is tainted by itself or none is
/// left.
pub fn search_taint(defs: &Vec<VariableDefinition>, seeds: &Vec<String>, name: &str) -> (r: bool)
    ensures
        r == tainted(def_views(defs@), names(seeds@), name@),
{
    let ghost dv = def_views(defs@);
    let ghost sv = names(seeds@);
    let mut found: Vec<String> = Vec::new();
    let first = name.to_owned();
    found.push(first);
    let mut at: usize = 0;
    proof {
        lemma_reaches_itself(dv, name@);
    }
    while at < found.len()
        invariant
            dv == def_views(defs@),
            sv == names(seeds@),
            search_holds(dv, sv, name@, names(found@), at as int),
        decreases slots_missing(dv, names(found@)) + found.len() - at,
    {
        let ghost cur = names(found@)[at as int];
        if is_seeded(defs, seeds, found[at].as_str()) {
            proof {
                assert(taints(dv, sv, name@, cur));
            }
            return true;
        }
        let ghost start_len = found.len();
        let ghost start_missing = slots_missing(dv, names(found@));
        let mut di: usize = 0;
        while di < defs.len()
            invariant
                di <= defs.len(),
                dv == def_views(defs@),
                at < found.len(),
                names(found@)[at as int] == cur,
                !seeded(dv, sv, cur),
                search_holds(dv, sv, name@, names(found@), at as int),
                expanded_up_to(dv, names(found@), cur, di as int, 0),
                slots_missing(dv, names(found@)) + found.len() <= start_missing + start_len,
            decreases defs.len() - di,
        {
            expand_definition(defs, di, &mut found, at, Ghost(sv));
            di += 1;
        }
        at += 1;
    }
    proof {
        let all = names(found@);
        lemma_closed_set_is_clean(dv, sv, all, name@);
    }
    false
}

} // verus!
