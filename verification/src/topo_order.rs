//! Deterministic topological ordering of the diagram's classes.
//!
//! The render order is a pure function of the unordered sets of class names
//! and dependency edges, with lexicographic tie-breaks: a depth-first
//! post-order walk started from every class name in lexicographic order,
//! recursing into each name's dependencies in lexicographic order, guarded
//! by a visited set so that cycles terminate silently.

use crate::renderer::DiagramV;
use crate::text::{lemma_lex_asymmetric, lemma_lex_irreflexive, lemma_lex_transitive,
    lemma_lex_trichotomy, lex_lt, str_lt};
use vstd::prelude::*;
use vstd::set_lib::lemma_len_subset;

verus! {

/// The set of class names appearing in the diagram.
pub open spec fn class_name_set(d: DiagramV) -> Set<Seq<char>> {
    Set::new(
        |n: Seq<char>| exists|i: int| 0 <= i < d.classes.len() && d.classes[i].name == n,
    )
}

/// The names that some relationship or composition points at.
pub open spec fn edge_target_set(d: DiagramV) -> Set<Seq<char>> {
    Set::new(
        |t: Seq<char>|
            (exists|i: int| 0 <= i < d.relationships.len() && d.relationships[i].to == t)
                || (exists|i: int|
                0 <= i < d.compositions.len() && d.compositions[i].contained == t),
    )
}

/// The dependencies of the class or name `n`: everything its relationships
/// and compositions point at.
pub open spec fn deps_of(d: DiagramV, n: Seq<char>) -> Set<Seq<char>> {
    Set::new(
        |t: Seq<char>|
            (exists|i: int|
                0 <= i < d.relationships.len() && d.relationships[i].from == n
                    && d.relationships[i].to == t) || (exists|i: int|
                0 <= i < d.compositions.len() && d.compositions[i].container == n
                    && d.compositions[i].contained == t),
    )
}

/// Every name the ordering walk can ever touch.
pub open spec fn universe(d: DiagramV) -> Set<Seq<char>> {
    class_name_set(d) + edge_target_set(d)
}

pub proof fn lemma_class_name_set_finite(d: DiagramV)
    ensures
        class_name_set(d).finite(),
        class_name_set(d).len() <= d.classes.len(),
{
    let names = d.classes.map_values(|c: crate::renderer::ClassNodeV| c.name);
    assert forall|n: Seq<char>| class_name_set(d).contains(n) implies names.to_set().contains(
        n,
    ) by {
        let i = choose|i: int| 0 <= i < d.classes.len() && d.classes[i].name == n;
        assert(names[i] == n);
        assert(names.contains(n));
    }
    assert forall|n: Seq<char>| names.to_set().contains(n) implies class_name_set(d).contains(
        n,
    ) by {
        let i = choose|i: int| 0 <= i < names.len() && names[i] == n;
        assert(d.classes[i].name == n);
    }
    assert(class_name_set(d) =~= names.to_set());
    vstd::seq_lib::seq_to_set_is_finite(names);
    names.lemma_cardinality_of_set();
}

pub proof fn lemma_edge_target_set_finite(d: DiagramV)
    ensures
        edge_target_set(d).finite(),
{
    let tos = d.relationships.map_values(|e: crate::renderer::RelationshipEdgeV| e.to);
    let containeds = d.compositions.map_values(|e: crate::renderer::CompositionEdgeV| e.contained);
    assert forall|t: Seq<char>| edge_target_set(d).contains(t) implies (tos.to_set()
        + containeds.to_set()).contains(t) by {
        if exists|i: int| 0 <= i < d.relationships.len() && d.relationships[i].to == t {
            let i = choose|i: int| 0 <= i < d.relationships.len() && d.relationships[i].to == t;
            assert(tos[i] == t);
            assert(tos.contains(t));
        } else {
            let i = choose|i: int| 0 <= i < d.compositions.len() && d.compositions[i].contained
                == t;
            assert(containeds[i] == t);
            assert(containeds.contains(t));
        }
    }
    assert forall|t: Seq<char>| (tos.to_set() + containeds.to_set()).contains(t)
        implies edge_target_set(d).contains(t) by {
        if tos.to_set().contains(t) {
            let i = choose|i: int| 0 <= i < tos.len() && tos[i] == t;
            assert(d.relationships[i].to == t);
        } else {
            let i = choose|i: int| 0 <= i < containeds.len() && containeds[i] == t;
            assert(d.compositions[i].contained == t);
        }
    }
    assert(edge_target_set(d) =~= tos.to_set() + containeds.to_set());
    vstd::seq_lib::seq_to_set_is_finite(tos);
    vstd::seq_lib::seq_to_set_is_finite(containeds);
}

pub proof fn lemma_universe_finite(d: DiagramV)
    ensures
        universe(d).finite(),
{
    lemma_class_name_set_finite(d);
    lemma_edge_target_set_finite(d);
}

pub proof fn lemma_deps_in_universe(d: DiagramV, n: Seq<char>)
    ensures
        deps_of(d, n).subset_of(universe(d)),
        deps_of(d, n).finite(),
{
    lemma_universe_finite(d);
    assert(deps_of(d, n).subset_of(universe(d)));
    lemma_len_subset(deps_of(d, n), universe(d));
}

/// `m` is the lexicographically least element of `s`.
pub open spec fn is_lex_min(s: Set<Seq<char>>, m: Seq<char>) -> bool {
    s.contains(m) && forall|x: Seq<char>| s.contains(x) ==> !lex_lt(x, m)
}

/// The lexicographically least element of `s`.
pub open spec fn lex_min(s: Set<Seq<char>>) -> Seq<char> {
    choose|m: Seq<char>| is_lex_min(s, m)
}

pub proof fn lemma_has_lex_min(s: Set<Seq<char>>)
    requires
        s.finite(),
        s.len() > 0,
    ensures
        is_lex_min(s, lex_min(s)),
    decreases s.len(),
{
    let e = s.choose();
    assert(s.contains(e));
    let rest = s.remove(e);
    if rest.len() == 0 {
        assert(rest =~= Set::<Seq<char>>::empty());
        assert forall|x: Seq<char>| s.contains(x) implies !lex_lt(x, e) by {
            if x != e {
                assert(rest.contains(x));
            } else {
                lemma_lex_irreflexive(e);
            }
        }
        assert(is_lex_min(s, e));
    } else {
        lemma_has_lex_min(rest);
        let m = lex_min(rest);
        if lex_lt(e, m) {
            assert forall|x: Seq<char>| s.contains(x) implies !lex_lt(x, e) by {
                if x == e {
                    lemma_lex_irreflexive(e);
                } else {
                    assert(rest.contains(x));
                    if lex_lt(x, e) {
                        lemma_lex_transitive(x, e, m);
                    }
                }
            }
            assert(is_lex_min(s, e));
        } else {
            assert forall|x: Seq<char>| s.contains(x) implies !lex_lt(x, m) by {
                if x == e {
                    assert(!lex_lt(e, m));
                } else {
                    assert(rest.contains(x));
                }
            }
            assert(is_lex_min(s, m));
        }
    }
    assert(exists|m: Seq<char>| is_lex_min(s, m));
}

/// The elements of a finite set of names, in ascending lexicographic order.
pub open spec fn sorted_seq_of(s: Set<Seq<char>>) -> Seq<Seq<char>>
    decreases s.len(),
    when s.finite()
    via sorted_seq_of_decreases
{
    if s.len() == 0 {
        Seq::<Seq<char>>::empty()
    } else {
        seq![lex_min(s)] + sorted_seq_of(s.remove(lex_min(s)))
    }
}

#[via_fn]
proof fn sorted_seq_of_decreases(s: Set<Seq<char>>) {
    if s.len() != 0 {
        lemma_has_lex_min(s);
    }
}

/// What `sorted_seq_of` yields: exactly the set's elements, strictly
/// ascending.
pub proof fn lemma_sorted_seq_of(s: Set<Seq<char>>)
    requires
        s.finite(),
    ensures
        sorted_seq_of(s).len() == s.len(),
        forall|x: Seq<char>| #[trigger] sorted_seq_of(s).contains(x) <==> s.contains(x),
        forall|i: int, j: int|
            0 <= i < j < sorted_seq_of(s).len() ==> lex_lt(
                sorted_seq_of(s)[i],
                sorted_seq_of(s)[j],
            ),
    decreases s.len(),
{
    let r = sorted_seq_of(s);
    if s.len() == 0 {
        assert forall|x: Seq<char>| #[trigger] r.contains(x) implies s.contains(x) by {}
        assert forall|x: Seq<char>| s.contains(x) implies #[trigger] r.contains(x) by {
            assert(s =~= Set::<Seq<char>>::empty());
        }
    } else {
        lemma_has_lex_min(s);
        let m = lex_min(s);
        let rest = s.remove(m);
        lemma_sorted_seq_of(rest);
        let rr = sorted_seq_of(rest);
        assert(r == seq![m] + rr);
        assert forall|x: Seq<char>| #[trigger] r.contains(x) implies s.contains(x) by {
            let i = choose|i: int| 0 <= i < r.len() && r[i] == x;
            if i == 0 {
            } else {
                assert(rr[i - 1] == x);
                assert(rr.contains(x));
            }
        }
        assert forall|x: Seq<char>| s.contains(x) implies #[trigger] r.contains(x) by {
            if x == m {
                assert(r[0] == x);
            } else {
                assert(rest.contains(x));
                assert(rr.contains(x));
                let i = choose|i: int| 0 <= i < rr.len() && rr[i] == x;
                assert(r[i + 1] == x);
            }
        }
        assert forall|i: int, j: int| 0 <= i < j < r.len() implies lex_lt(r[i], r[j]) by {
            if i == 0 {
                assert(r[j] == rr[j - 1]);
                assert(rr.contains(rr[j - 1]));
                assert(rest.contains(r[j]));
                assert(!lex_lt(r[j], m));
                lemma_lex_trichotomy(m, r[j]);
                assert(r[j] != m);
            } else {
                assert(r[i] == rr[i - 1]);
                assert(r[j] == rr[j - 1]);
            }
        }
    }
}

/// A strictly ascending sequence with exactly the elements of `s` is
/// `sorted_seq_of(s)`: the ordering pass has one possible answer.
pub proof fn lemma_sorted_seq_unique(q: Seq<Seq<char>>, s: Set<Seq<char>>)
    requires
        s.finite(),
        forall|i: int, j: int| 0 <= i < j < q.len() ==> lex_lt(q[i], q[j]),
        forall|x: Seq<char>| #[trigger] q.contains(x) <==> s.contains(x),
    ensures
        q == sorted_seq_of(s),
    decreases q.len(),
{
    if q.len() == 0 {
        assert forall|x: Seq<char>| !s.contains(x) by {
            assert(!q.contains(x));
        }
        assert(s =~= Set::<Seq<char>>::empty());
        assert(q =~= sorted_seq_of(s));
    } else {
        assert(q.contains(q[0]));
        assert(s.contains(q[0]));
        assert(s.len() > 0) by {
            if s.len() == 0 {
                s.lemma_len0_is_empty();
            }
        }
        lemma_has_lex_min(s);
        let m = lex_min(s);
        assert(is_lex_min(s, q[0])) by {
            assert forall|x: Seq<char>| s.contains(x) implies !lex_lt(x, q[0]) by {
                assert(q.contains(x));
                let i = choose|i: int| 0 <= i < q.len() && q[i] == x;
                if i == 0 {
                    lemma_lex_irreflexive(x);
                } else {
                    lemma_lex_asymmetric(q[0], q[i]);
                }
            }
        }
        assert(q[0] == m) by {
            lemma_lex_trichotomy(q[0], m);
            assert(!lex_lt(q[0], m));
            assert(!lex_lt(m, q[0]));
        }
        let qt = q.skip(1);
        let rest = s.remove(m);
        assert forall|i: int, j: int| 0 <= i < j < qt.len() implies lex_lt(qt[i], qt[j]) by {
            assert(qt[i] == q[i + 1]);
            assert(qt[j] == q[j + 1]);
        }
        assert forall|x: Seq<char>| #[trigger] qt.contains(x) implies rest.contains(x) by {
            let i = choose|i: int| 0 <= i < qt.len() && qt[i] == x;
            assert(q[i + 1] == x);
            assert(q.contains(x));
            lemma_lex_asymmetric(q[0], q[i + 1]);
            assert(x != m);
        }
        assert forall|x: Seq<char>| rest.contains(x) implies #[trigger] qt.contains(x) by {
            assert(s.contains(x));
            assert(q.contains(x));
            let i = choose|i: int| 0 <= i < q.len() && q[i] == x;
            if i == 0 {
                assert(false);
            } else {
                assert(qt[i - 1] == x);
            }
        }
        lemma_sorted_seq_unique(qt, rest);
        assert(q =~= seq![m] + qt);
        assert(q == sorted_seq_of(s));
    }
}

/// One step of the depth-first walk: skip `n` if already visited, else
/// visit its dependencies in lexicographic order and then emit `n`.
/// `fuel` only forces termination; every run of interest has enough of it
/// (see `lemma_topo_visit_fuel`).
pub open spec fn topo_visit(
    fuel: nat,
    n: Seq<char>,
    d: DiagramV,
    visited: Set<Seq<char>>,
    order: Seq<Seq<char>>,
) -> Option<(Set<Seq<char>>, Seq<Seq<char>>)>
    decreases fuel, 0nat, 0nat,
{
    if visited.contains(n) {
        Some((visited, order))
    } else if fuel == 0 {
        None
    } else {
        match topo_visit_list(
            (fuel - 1) as nat,
            sorted_seq_of(deps_of(d, n)),
            d,
            visited.insert(n),
            order,
        ) {
            Some((v2, o2)) => Some((v2, o2.push(n))),
            None => None,
        }
    }
}

/// Visit each of `names` in turn, threading the visited set and the
/// emission order through.
pub open spec fn topo_visit_list(
    fuel: nat,
    names: Seq<Seq<char>>,
    d: DiagramV,
    visited: Set<Seq<char>>,
    order: Seq<Seq<char>>,
) -> Option<(Set<Seq<char>>, Seq<Seq<char>>)>
    decreases fuel, names.len(), 1nat,
{
    if names.len() == 0 {
        Some((visited, order))
    } else {
        match topo_visit(fuel, names[0], d, visited, order) {
            Some((v2, o2)) => topo_visit_list(fuel, names.skip(1), d, v2, o2),
            None => None,
        }
    }
}

/// Any fuel beyond the number of unvisited names gives the same, defined
/// result; the walk can only grow the visited set, and only within the
/// universe.
pub proof fn lemma_topo_visit_fuel(
    f1: nat,
    f2: nat,
    n: Seq<char>,
    d: DiagramV,
    visited: Set<Seq<char>>,
    order: Seq<Seq<char>>,
)
    requires
        universe(d).finite(),
        visited.finite(),
        universe(d).contains(n),
        f1 > universe(d).difference(visited).len(),
        f2 > universe(d).difference(visited).len(),
    ensures
        topo_visit(f1, n, d, visited, order) == topo_visit(f2, n, d, visited, order),
        topo_visit(f1, n, d, visited, order) is Some,
        visited.subset_of(topo_visit(f1, n, d, visited, order)->Some_0.0),
        topo_visit(f1, n, d, visited, order)->Some_0.0.subset_of(visited.union(universe(d))),
        topo_visit(f1, n, d, visited, order)->Some_0.0.finite(),
    decreases universe(d).difference(visited).len(), 0nat, 0nat,
{
    if visited.contains(n) {
    } else {
        let v1 = visited.insert(n);
        assert(universe(d).difference(v1) =~= universe(d).difference(visited).remove(n));
        assert(universe(d).difference(visited).contains(n));
        assert(universe(d).difference(v1).len() == universe(d).difference(visited).len() - 1);
        let deps = sorted_seq_of(deps_of(d, n));
        lemma_deps_in_universe(d, n);
        lemma_sorted_seq_of(deps_of(d, n));
        assert forall|k: int| 0 <= k < deps.len() implies universe(d).contains(deps[k]) by {
            assert(deps.contains(deps[k]));
            assert(deps_of(d, n).contains(deps[k]));
        }
        lemma_topo_list_fuel((f1 - 1) as nat, (f2 - 1) as nat, deps, d, v1, order);
    }
}

/// The list form of `lemma_topo_visit_fuel`.
pub proof fn lemma_topo_list_fuel(
    f1: nat,
    f2: nat,
    names: Seq<Seq<char>>,
    d: DiagramV,
    visited: Set<Seq<char>>,
    order: Seq<Seq<char>>,
)
    requires
        universe(d).finite(),
        visited.finite(),
        forall|k: int| 0 <= k < names.len() ==> universe(d).contains(#[trigger] names[k]),
        f1 > universe(d).difference(visited).len(),
        f2 > universe(d).difference(visited).len(),
    ensures
        topo_visit_list(f1, names, d, visited, order) == topo_visit_list(
            f2,
            names,
            d,
            visited,
            order,
        ),
        topo_visit_list(f1, names, d, visited, order) is Some,
        visited.subset_of(topo_visit_list(f1, names, d, visited, order)->Some_0.0),
        topo_visit_list(f1, names, d, visited, order)->Some_0.0.subset_of(
            visited.union(universe(d)),
        ),
        topo_visit_list(f1, names, d, visited, order)->Some_0.0.finite(),
    decreases universe(d).difference(visited).len(), names.len(), 1nat,
{
    if names.len() == 0 {
    } else {
        let n0 = names[0];
        assert forall|k: int| 0 <= k < names.skip(1).len() implies universe(d).contains(
            #[trigger] names.skip(1)[k],
        ) by {
            assert(names.skip(1)[k] == names[k + 1]);
        }
        if visited.contains(n0) {
            lemma_topo_list_fuel(f1, f2, names.skip(1), d, visited, order);
        } else {
            assert(universe(d).difference(visited).contains(n0));
            assert(universe(d).difference(visited).len() > 0) by {
                if universe(d).difference(visited).len() == 0 {
                    universe(d).difference(visited).lemma_len0_is_empty();
                }
            }
            lemma_topo_visit_fuel(f1, f2, n0, d, visited, order);
            let r = topo_visit(f1, n0, d, visited, order)->Some_0;
            let v2 = r.0;
            let o2 = r.1;
            assert(universe(d).difference(v2).subset_of(universe(d).difference(visited)));
            lemma_len_subset(universe(d).difference(v2), universe(d).difference(visited));
            assert(universe(d).difference(v2).finite()) by {
                lemma_len_subset(universe(d).difference(v2), universe(d));
            }
            lemma_topo_list_fuel(f1, f2, names.skip(1), d, v2, o2);
            assert(topo_visit_list(f1, names, d, visited, order) == topo_visit_list(
                f1,
                names.skip(1),
                d,
                v2,
                o2,
            ));
            assert(topo_visit(f2, n0, d, visited, order) == Some((v2, o2)));
            assert(topo_visit_list(f2, names, d, visited, order) == topo_visit_list(
                f2,
                names.skip(1),
                d,
                v2,
                o2,
            ));
        }
    }
}

/// Fuel that is always sufficient for a full walk.
pub open spec fn topo_fuel(d: DiagramV) -> nat {
    universe(d).len() + 1
}

/// The emission order of the full walk: every class name in lexicographic
/// order, each expanded depth-first.
pub open spec fn topo_order_names(d: DiagramV) -> Seq<Seq<char>> {
    topo_visit_list(
        topo_fuel(d),
        sorted_seq_of(class_name_set(d)),
        d,
        Set::empty(),
        Seq::empty(),
    )->Some_0.1
}

/// The first class of `classes` carrying the name `n`.
pub open spec fn first_class_with_name(
    classes: Seq<crate::renderer::ClassNodeV>,
    n: Seq<char>,
) -> crate::renderer::ClassNodeV
    decreases classes.len(),
{
    if classes.len() == 0 {
        arbitrary()
    } else if classes[0].name == n {
        classes[0]
    } else {
        first_class_with_name(classes.skip(1), n)
    }
}

/// The class nodes that a sequence of names stands for: names that are no
/// class are dropped, every other name becomes its first-inserted node.
pub open spec fn ordered_class_seq(d: DiagramV, names: Seq<Seq<char>>) -> Seq<
    crate::renderer::ClassNodeV,
>
    decreases names.len(),
{
    if names.len() == 0 {
        Seq::<crate::renderer::ClassNodeV>::empty()
    } else {
        let rest = ordered_class_seq(d, names.drop_last());
        if class_name_set(d).contains(names.last()) {
            rest.push(first_class_with_name(d.classes, names.last()))
        } else {
            rest
        }
    }
}

/// The classes of the diagram in render order: the emission order of the
/// walk, restricted to names that really are classes, each name standing
/// for its first-inserted node.
pub open spec fn topo_classes(d: DiagramV) -> Seq<crate::renderer::ClassNodeV> {
    ordered_class_seq(d, topo_order_names(d))
}

/// If position `i` holds the first class named `n`, it is the node that
/// `first_class_with_name` yields.
pub proof fn lemma_first_class_at(
    classes: Seq<crate::renderer::ClassNodeV>,
    n: Seq<char>,
    i: int,
)
    requires
        0 <= i < classes.len(),
        classes[i].name == n,
        forall|j: int| 0 <= j < i ==> classes[j].name != n,
    ensures
        first_class_with_name(classes, n) == classes[i],
    decreases i,
{
    if i > 0 {
        let tail = classes.skip(1);
        assert forall|j: int| 0 <= j < i - 1 implies tail[j].name != n by {
            assert(tail[j] == classes[j + 1]);
        }
        assert(tail[i - 1] == classes[i]);
        lemma_first_class_at(tail, n, i - 1);
    }
}

/// The walk reads nothing of a diagram but each name's dependency set:
/// two diagrams with pointwise-equal dependencies walk identically.
pub proof fn lemma_topo_visit_same_edges(
    fuel: nat,
    n: Seq<char>,
    d1: DiagramV,
    d2: DiagramV,
    visited: Set<Seq<char>>,
    order: Seq<Seq<char>>,
)
    requires
        forall|m: Seq<char>| #[trigger] deps_of(d1, m) == deps_of(d2, m),
    ensures
        topo_visit(fuel, n, d1, visited, order) == topo_visit(fuel, n, d2, visited, order),
    decreases fuel, 0nat, 0nat,
{
    assert(deps_of(d1, n) == deps_of(d2, n));
    if visited.contains(n) {
    } else if fuel == 0 {
    } else {
        assert(sorted_seq_of(deps_of(d1, n)) == sorted_seq_of(deps_of(d2, n)));
        lemma_topo_list_same_edges(
            (fuel - 1) as nat,
            sorted_seq_of(deps_of(d1, n)),
            d1,
            d2,
            visited.insert(n),
            order,
        );
    }
}

/// The list form of `lemma_topo_visit_same_edges`.
pub proof fn lemma_topo_list_same_edges(
    fuel: nat,
    names: Seq<Seq<char>>,
    d1: DiagramV,
    d2: DiagramV,
    visited: Set<Seq<char>>,
    order: Seq<Seq<char>>,
)
    requires
        forall|m: Seq<char>| #[trigger] deps_of(d1, m) == deps_of(d2, m),
    ensures
        topo_visit_list(fuel, names, d1, visited, order) == topo_visit_list(
            fuel,
            names,
            d2,
            visited,
            order,
        ),
    decreases fuel, names.len(), 1nat,
{
    if names.len() == 0 {
    } else {
        lemma_topo_visit_same_edges(fuel, names[0], d1, d2, visited, order);
        match topo_visit(fuel, names[0], d1, visited, order) {
            Some((v2, o2)) => {
                lemma_topo_list_same_edges(fuel, names.skip(1), d1, d2, v2, o2);
            },
            None => {},
        }
    }
}

/// The emission order is a pure function of the unordered sets alone: the
/// class-name set, the edge-target set, and each name's dependency set.
/// Insertion order plays no part beyond the lexicographic tie-break.
pub proof fn lemma_order_pure_function(d1: DiagramV, d2: DiagramV)
    requires
        class_name_set(d1) == class_name_set(d2),
        edge_target_set(d1) == edge_target_set(d2),
        forall|m: Seq<char>| #[trigger] deps_of(d1, m) == deps_of(d2, m),
    ensures
        topo_order_names(d1) == topo_order_names(d2),
{
    assert(universe(d1) == universe(d2));
    assert(topo_fuel(d1) == topo_fuel(d2));
    lemma_topo_list_same_edges(
        topo_fuel(d1),
        sorted_seq_of(class_name_set(d1)),
        d1,
        d2,
        Set::empty(),
        Seq::empty(),
    );
}

/// The emission order depends only on the class-name set and the edges.
pub proof fn lemma_topo_order_names_same(d1: DiagramV, d2: DiagramV)
    requires
        d1.relationships == d2.relationships,
        d1.compositions == d2.compositions,
        class_name_set(d1) == class_name_set(d2),
    ensures
        topo_order_names(d1) == topo_order_names(d2),
{
    assert(edge_target_set(d1) =~= edge_target_set(d2));
    assert forall|m: Seq<char>| #[trigger] deps_of(d1, m) == deps_of(d2, m) by {
        assert(deps_of(d1, m) =~= deps_of(d2, m));
    }
    lemma_order_pure_function(d1, d2);
}

/// Removing an element whose name is not `n` leaves the first class named
/// `n` unchanged.
pub proof fn lemma_first_class_remove_other(
    classes: Seq<crate::renderer::ClassNodeV>,
    j: int,
    n: Seq<char>,
)
    requires
        0 <= j < classes.len(),
        classes[j].name != n,
    ensures
        first_class_with_name(classes.remove(j), n) == first_class_with_name(classes, n),
    decreases classes.len(),
{
    let r = classes.remove(j);
    if j == 0 {
        assert(r =~= classes.skip(1));
    } else {
        assert(r[0] == classes[0]);
        if classes[0].name == n {
        } else {
            assert(r.skip(1) =~= classes.skip(1).remove(j - 1));
            assert(classes.skip(1)[j - 1] == classes[j]);
            lemma_first_class_remove_other(classes.skip(1), j - 1, n);
        }
    }
}

/// Removing a later duplicate (some earlier class carries the same name)
/// leaves the first class of that name unchanged.
pub proof fn lemma_first_class_remove_dup_name(
    classes: Seq<crate::renderer::ClassNodeV>,
    j: int,
    n: Seq<char>,
)
    requires
        0 <= j < classes.len(),
        classes[j].name == n,
        exists|i: int| 0 <= i < j && classes[i].name == n,
    ensures
        first_class_with_name(classes.remove(j), n) == first_class_with_name(classes, n),
    decreases classes.len(),
{
    let r = classes.remove(j);
    assert(j >= 1);
    assert(r[0] == classes[0]);
    if classes[0].name == n {
    } else {
        let i = choose|i: int| 0 <= i < j && classes[i].name == n;
        assert(i >= 1);
        assert(r.skip(1) =~= classes.skip(1).remove(j - 1));
        assert(classes.skip(1)[j - 1] == classes[j]);
        assert(classes.skip(1)[i - 1] == classes[i]);
        lemma_first_class_remove_dup_name(classes.skip(1), j - 1, n);
    }
}

/// The render order of class nodes depends only on the class-name set and
/// the first node under each name.
pub proof fn lemma_ordered_class_seq_same(d1: DiagramV, d2: DiagramV, names: Seq<Seq<char>>)
    requires
        class_name_set(d1) == class_name_set(d2),
        forall|n: Seq<char>|
            first_class_with_name(d1.classes, n) == first_class_with_name(d2.classes, n),
    ensures
        ordered_class_seq(d1, names) == ordered_class_seq(d2, names),
    decreases names.len(),
{
    if names.len() > 0 {
        lemma_ordered_class_seq_same(d1, d2, names.drop_last());
    }
}

/// There is a dependency path of at most `k` steps from `a` to `b`.
pub open spec fn reaches(d: DiagramV, a: Seq<char>, b: Seq<char>, k: nat) -> bool
    decreases k,
{
    a == b || (k > 0 && exists|m: Seq<char>|
        #[trigger] deps_of(d, a).contains(m) && reaches(d, m, b, (k - 1) as nat))
}

/// Some dependency path leads from `a` to `b`.
pub open spec fn reach_any(d: DiagramV, a: Seq<char>, b: Seq<char>) -> bool {
    exists|k: nat| reaches(d, a, b, k)
}

/// The dependency graph has no cycle: no edge points back at a name the
/// target already reaches.
pub open spec fn acyclic(d: DiagramV) -> bool {
    forall|n: Seq<char>, m: Seq<char>, k: nat|
        #![trigger deps_of(d, n).contains(m), reaches(d, m, n, k)]
        deps_of(d, n).contains(m) ==> !reaches(d, m, n, k)
}

/// The consecutive entries of the walk's gray chain are dependency edges.
pub open spec fn dep_chain(d: DiagramV, stack: Seq<Seq<char>>) -> bool {
    forall|i: int|
        0 <= i < stack.len() - 1 ==> #[trigger] deps_of(d, stack[i]).contains(stack[i + 1])
}

/// What the emitted order always satisfies: every dependency of an emitted
/// name was emitted earlier, or reaches the name (the cycle case).
pub open spec fn good_order(d: DiagramV, order: Seq<Seq<char>>) -> bool {
    forall|idx: int, m: Seq<char>|
        #![trigger deps_of(d, order[idx]).contains(m)]
        0 <= idx < order.len() && deps_of(d, order[idx]).contains(m) ==> order.take(
            idx,
        ).contains(m) || reach_any(d, m, order[idx])
}

/// Every link of the gray chain reaches the name under visit.
proof fn lemma_chain_reaches(d: DiagramV, stack: Seq<Seq<char>>, n: Seq<char>, i: int)
    requires
        dep_chain(d, stack),
        0 <= i < stack.len(),
        deps_of(d, stack.last()).contains(n),
    ensures
        reaches(d, stack[i], n, (stack.len() - i) as nat),
    decreases stack.len() - i,
{
    if i == stack.len() - 1 {
        assert(reaches(d, n, n, 0));
        assert(deps_of(d, stack[i]).contains(n));
        assert(reaches(d, stack[i], n, 1));
    } else {
        lemma_chain_reaches(d, stack, n, i + 1);
        assert(deps_of(d, stack[i]).contains(stack[i + 1]));
        assert(reaches(d, stack[i], n, (stack.len() - i) as nat));
    }
}

/// The depth-first walk emits every dependency of an emitted name before
/// it, unless that dependency reaches the name along the graph.
proof fn lemma_visit_order(
    fuel: nat,
    n: Seq<char>,
    d: DiagramV,
    visited: Set<Seq<char>>,
    order: Seq<Seq<char>>,
    stack: Seq<Seq<char>>,
)
    requires
        topo_visit(fuel, n, d, visited, order) is Some,
        visited == order.to_set().union(stack.to_set()),
        order.to_set().disjoint(stack.to_set()),
        order.no_duplicates(),
        dep_chain(d, stack),
        stack.len() > 0 ==> deps_of(d, stack.last()).contains(n),
        good_order(d, order),
    ensures
        ({
            let r = topo_visit(fuel, n, d, visited, order)->Some_0;
            &&& r.0 == r.1.to_set().union(stack.to_set())
            &&& r.1.to_set().disjoint(stack.to_set())
            &&& r.1.no_duplicates()
            &&& r.1.len() >= order.len() && r.1.take(order.len() as int) == order
            &&& good_order(d, r.1)
            &&& r.0.contains(n)
        }),
    decreases fuel, 0nat, 0nat,
{
    let r = topo_visit(fuel, n, d, visited, order)->Some_0;
    if visited.contains(n) {
        assert(r.1.take(order.len() as int) =~= order);
    } else {
        let v1 = visited.insert(n);
        let stack1 = stack.push(n);
        let deps = sorted_seq_of(deps_of(d, n));
        assert(!order.to_set().contains(n));
        assert(!stack.to_set().contains(n));
        stack.lemma_push_to_set_commute(n);
        assert(stack1.to_set() == stack.to_set().insert(n));
        assert(v1 =~= order.to_set().union(stack1.to_set()));
        assert(order.to_set().disjoint(stack1.to_set()));
        assert forall|i: int| 0 <= i < stack1.len() - 1 implies #[trigger] deps_of(
            d,
            stack1[i],
        ).contains(stack1[i + 1]) by {
            if i < stack.len() - 1 {
                assert(stack1[i] == stack[i]);
                assert(stack1[i + 1] == stack[i + 1]);
            } else {
                assert(stack1[i] == stack.last());
                assert(stack1[i + 1] == n);
            }
        }
        lemma_deps_in_universe(d, n);
        lemma_sorted_seq_of(deps_of(d, n));
        assert forall|k: int| 0 <= k < deps.len() implies deps_of(d, stack1.last()).contains(
            #[trigger] deps[k],
        ) by {
            assert(deps.contains(deps[k]));
        }
        lemma_list_order((fuel - 1) as nat, deps, d, v1, order, stack1);
        let r2 = topo_visit_list((fuel - 1) as nat, deps, d, v1, order)->Some_0;
        let v2 = r2.0;
        let o2 = r2.1;
        assert(r.0 == v2);
        assert(r.1 == o2.push(n));

        assert(!o2.to_set().contains(n)) by {
            assert(stack1.to_set().contains(n));
        }
        o2.lemma_push_to_set_commute(n);
        assert(r.1.to_set() =~= o2.to_set().insert(n));
        assert(r.0 =~= r.1.to_set().union(stack.to_set())) by {
            assert(v2 == o2.to_set().union(stack1.to_set()));
            assert(stack1.to_set() =~= stack.to_set().insert(n));
        }
        assert(r.1.to_set().disjoint(stack.to_set())) by {
            assert(o2.to_set().disjoint(stack1.to_set()));
            assert(!stack.to_set().contains(n));
        }
        assert(r.1.no_duplicates()) by {
            assert(o2.no_duplicates());
            assert(!o2.contains(n)) by {
                if o2.contains(n) {
                    assert(o2.to_set().contains(n));
                }
            }
            assert forall|x: int, y: int| 0 <= x < r.1.len() && 0 <= y < r.1.len() && x != y
                implies r.1[x] != r.1[y] by {
                if x < o2.len() && y < o2.len() {
                    assert(r.1[x] == o2[x] && r.1[y] == o2[y]);
                } else if x < o2.len() {
                    assert(r.1[y] == n && r.1[x] == o2[x]);
                    assert(o2.contains(o2[x]) == true);
                } else if y < o2.len() {
                    assert(r.1[x] == n && r.1[y] == o2[y]);
                    assert(o2.contains(o2[y]) == true);
                }
            }
        }
        assert(r.1.take(order.len() as int) =~= order) by {
            assert(o2.take(order.len() as int) == order);
        }

        // Every dependency of `n` ended up visited; that yields the order
        // property at the new last position.
        assert forall|idx: int, m: Seq<char>|
            0 <= idx < r.1.len() && #[trigger] deps_of(d, r.1[idx]).contains(m) implies r.1.take(
            idx,
        ).contains(m) || reach_any(d, m, r.1[idx]) by {
            if idx < o2.len() {
                assert(r.1[idx] == o2[idx]);
                assert(deps_of(d, o2[idx]).contains(m));
                if o2.take(idx).contains(m) {
                    assert(r.1.take(idx) =~= o2.take(idx));
                }
            } else {
                assert(r.1[idx] == n);
                assert(deps.contains(m)) by {
                    assert(deps_of(d, n).contains(m));
                }
                assert(v2.contains(m)) by {
                    let k = choose|k: int| 0 <= k < deps.len() && deps[k] == m;
                    assert(v2.contains(deps[k]));
                }
                if o2.to_set().contains(m) {
                    assert(o2.contains(m));
                    assert(r.1.take(idx) =~= o2);
                } else {
                    assert(stack1.to_set().contains(m));
                    if m == n {
                        assert(reaches(d, m, n, 0));
                        assert(reach_any(d, m, n));
                    } else {
                        assert(stack.to_set().contains(m)) by {
                            assert(stack1.to_set() =~= stack.to_set().insert(n));
                        }
                        assert(stack.contains(m));
                        let i = choose|i: int| 0 <= i < stack.len() && stack[i] == m;
                        assert(stack.len() > 0);
                        lemma_chain_reaches(d, stack, n, i);
                        assert(reach_any(d, m, n));
                    }
                }
            }
        }
        assert(good_order(d, r.1));
        assert(r.0.contains(n)) by {
            assert(v1.contains(n));
            assert(v1.subset_of(v2));
        }
    }
}

/// The list form of `lemma_visit_order`; additionally, every listed name
/// is visited afterwards.
proof fn lemma_list_order(
    fuel: nat,
    names: Seq<Seq<char>>,
    d: DiagramV,
    visited: Set<Seq<char>>,
    order: Seq<Seq<char>>,
    stack: Seq<Seq<char>>,
)
    requires
        topo_visit_list(fuel, names, d, visited, order) is Some,
        visited == order.to_set().union(stack.to_set()),
        order.to_set().disjoint(stack.to_set()),
        order.no_duplicates(),
        dep_chain(d, stack),
        forall|k: int|
            0 <= k < names.len() && stack.len() > 0 ==> deps_of(d, stack.last()).contains(
                #[trigger] names[k],
            ),
        good_order(d, order),
    ensures
        ({
            let r = topo_visit_list(fuel, names, d, visited, order)->Some_0;
            &&& r.0 == r.1.to_set().union(stack.to_set())
            &&& r.1.to_set().disjoint(stack.to_set())
            &&& r.1.no_duplicates()
            &&& r.1.len() >= order.len() && r.1.take(order.len() as int) == order
            &&& good_order(d, r.1)
            &&& visited.subset_of(r.0)
            &&& (forall|k: int| 0 <= k < names.len() ==> r.0.contains(#[trigger] names[k]))
        }),
    decreases fuel, names.len(), 1nat,
{
    let r = topo_visit_list(fuel, names, d, visited, order)->Some_0;
    if names.len() == 0 {
        assert(r.1.take(order.len() as int) =~= order);
    } else {
        lemma_visit_order(fuel, names[0], d, visited, order, stack);
        let r1 = topo_visit(fuel, names[0], d, visited, order)->Some_0;
        let v1 = r1.0;
        let o1 = r1.1;
        assert forall|k: int|
            0 <= k < names.skip(1).len() && stack.len() > 0 implies deps_of(
            d,
            stack.last(),
        ).contains(#[trigger] names.skip(1)[k]) by {
            assert(names.skip(1)[k] == names[k + 1]);
        }
        lemma_list_order(fuel, names.skip(1), d, v1, o1, stack);
        let r2 = topo_visit_list(fuel, names.skip(1), d, v1, o1)->Some_0;
        assert(r == r2);
        assert(visited.subset_of(v1)) by {
            assert(order.to_set().subset_of(o1.to_set())) by {
                assert forall|x: Seq<char>| order.to_set().contains(x) implies
                    o1.to_set().contains(x) by {
                    let k = choose|k: int| 0 <= k < order.len() && order[k] == x;
                    assert(o1.take(order.len() as int)[k] == x);
                    assert(o1[k] == x);
                    assert(o1.contains(x));
                }
            }
        }
        assert(r.1.take(order.len() as int) =~= order) by {
            assert(r2.1.take(o1.len() as int) == o1);
            assert(o1.take(order.len() as int) == order);
            assert forall|k: int| 0 <= k < order.len() implies r2.1.take(order.len() as int)[k]
                == order[k] by {
                assert(r2.1[k] == r2.1.take(o1.len() as int)[k]);
                assert(o1[k] == o1.take(order.len() as int)[k]);
            }
        }
        assert(r.0.contains(names[0])) by {
            assert(v1.contains(names[0]));
            assert(v1.subset_of(r2.0));
        }
        assert forall|k: int| 0 <= k < names.len() implies r.0.contains(#[trigger] names[k]) by {
            if k > 0 {
                assert(names.skip(1)[k - 1] == names[k]);
                assert(r2.0.contains(names.skip(1)[k - 1]));
            }
        }
    }
}

/// The full walk is defined, never repeats a name, visits every class
/// name, and emits in an order that respects dependencies up to cycles.
pub proof fn lemma_full_walk(d: DiagramV)
    ensures
        topo_order_names(d).no_duplicates(),
        good_order(d, topo_order_names(d)),
        forall|n: Seq<char>|
            class_name_set(d).contains(n) ==> #[trigger] topo_order_names(d).contains(n),
{
    lemma_universe_finite(d);
    lemma_class_name_set_finite(d);
    lemma_sorted_seq_of(class_name_set(d));
    let names = sorted_seq_of(class_name_set(d));
    let u = universe(d);
    assert forall|k: int| 0 <= k < names.len() implies u.contains(#[trigger] names[k]) by {
        assert(names.contains(names[k]));
        assert(class_name_set(d).contains(names[k]));
    }
    let fuel0 = topo_fuel(d);
    assert(u.difference(Set::<Seq<char>>::empty()) =~= u);
    lemma_topo_list_fuel(fuel0, fuel0, names, d, Set::empty(), Seq::empty());
    assert(Seq::<Seq<char>>::empty().to_set() =~= Set::<Seq<char>>::empty());
    assert(Set::<Seq<char>>::empty() =~= Seq::<Seq<char>>::empty().to_set().union(
        Seq::<Seq<char>>::empty().to_set(),
    ));
    lemma_list_order(fuel0, names, d, Set::empty(), Seq::empty(), Seq::empty());
    let r = topo_visit_list(fuel0, names, d, Set::empty(), Seq::empty())->Some_0;
    assert(topo_order_names(d) == r.1);
    assert(r.0 =~= r.1.to_set());
    assert forall|n: Seq<char>| class_name_set(d).contains(n) implies #[trigger] topo_order_names(
        d,
    ).contains(n) by {
        assert(names.contains(n));
        let k = choose|k: int| 0 <= k < names.len() && names[k] == n;
        assert(r.0.contains(names[k]));
        assert(r.1.to_set().contains(n));
    }
}

/// In an acyclic diagram, a dependency is emitted before its dependent:
/// when class `b` depends on class `a`, `a` stands before `b` in the
/// emission order.
pub proof fn lemma_topo_order_respects_deps(d: DiagramV, a: Seq<char>, b: Seq<char>)
    requires
        acyclic(d),
        class_name_set(d).contains(a),
        class_name_set(d).contains(b),
        deps_of(d, b).contains(a),
    ensures
        exists|ja: int, jb: int|
            0 <= ja < jb < topo_order_names(d).len() && topo_order_names(d)[ja] == a
                && topo_order_names(d)[jb] == b,
{
    lemma_full_walk(d);
    let of = topo_order_names(d);
    assert(of.contains(b));
    let jb = choose|jb: int| 0 <= jb < of.len() && of[jb] == b;
    assert(deps_of(d, of[jb]).contains(a));
    assert(of.take(jb).contains(a) || reach_any(d, a, of[jb]));
    if reach_any(d, a, b) {
        let k = choose|k: nat| reaches(d, a, b, k);
        assert(deps_of(d, b).contains(a) && reaches(d, a, b, k));
        assert(false);
    }
    assert(of.take(jb).contains(a));
    let ja = choose|ja: int| 0 <= ja < of.take(jb).len() && of.take(jb)[ja] == a;
    assert(of[ja] == a);
}

/// The first class under a present name carries that name.
pub proof fn lemma_first_class_name(classes: Seq<crate::renderer::ClassNodeV>, n: Seq<char>)
    requires
        exists|i: int| 0 <= i < classes.len() && classes[i].name == n,
    ensures
        first_class_with_name(classes, n).name == n,
    decreases classes.len(),
{
    if classes[0].name == n {
    } else {
        let i = choose|i: int| 0 <= i < classes.len() && classes[i].name == n;
        assert(classes.skip(1)[i - 1] == classes[i]);
        lemma_first_class_name(classes.skip(1), n);
    }
}

/// Longer name prefixes yield longer class prefixes, extending them.
pub proof fn lemma_ordered_prefix_mono(d: DiagramV, names: Seq<Seq<char>>, k1: int, k2: int)
    requires
        0 <= k1 <= k2 <= names.len(),
    ensures
        ordered_class_seq(d, names.take(k1)).len() <= ordered_class_seq(d, names.take(k2)).len(),
        ordered_class_seq(d, names.take(k2)).take(
            ordered_class_seq(d, names.take(k1)).len() as int,
        ) == ordered_class_seq(d, names.take(k1)),
    decreases k2 - k1,
{
    let o1 = ordered_class_seq(d, names.take(k1));
    if k1 == k2 {
        assert(ordered_class_seq(d, names.take(k2)).take(o1.len() as int) =~= o1);
    } else {
        lemma_ordered_prefix_mono(d, names, k1, k2 - 1);
        let prev = ordered_class_seq(d, names.take(k2 - 1));
        let step = names.take(k2);
        assert(step.drop_last() =~= names.take(k2 - 1));
        assert(step.last() == names[k2 - 1]);
        let cur = ordered_class_seq(d, names.take(k2));
        if class_name_set(d).contains(names[k2 - 1]) {
            assert(cur == prev.push(first_class_with_name(d.classes, names[k2 - 1])));
            assert(cur.take(o1.len() as int) =~= o1) by {
                assert(prev.take(o1.len() as int) == o1);
                assert forall|x: int| 0 <= x < o1.len() implies cur.take(o1.len() as int)[x]
                    == o1[x] by {
                    assert(cur[x] == prev[x]);
                    assert(prev[x] == prev.take(o1.len() as int)[x]);
                }
            }
        } else {
            assert(cur == prev);
        }
    }
}

/// In an acyclic diagram, a base class's block precedes its subclass's
/// block in the render order.
pub proof fn lemma_class_order_respects_deps(d: DiagramV, a: Seq<char>, b: Seq<char>)
    requires
        acyclic(d),
        class_name_set(d).contains(a),
        class_name_set(d).contains(b),
        deps_of(d, b).contains(a),
    ensures
        exists|ia: int, ib: int|
            0 <= ia < ib < topo_classes(d).len() && topo_classes(d)[ia].name == a
                && topo_classes(d)[ib].name == b,
{
    lemma_topo_order_respects_deps(d, a, b);
    let names = topo_order_names(d);
    let (ja, jb) = choose|ja: int, jb: int|
        0 <= ja < jb < names.len() && names[ja] == a && names[jb] == b;
    assert(names[ja] == a && names[jb] == b);

    let oa = ordered_class_seq(d, names.take(ja + 1));
    let ob = ordered_class_seq(d, names.take(jb + 1));
    let oa_prev = ordered_class_seq(d, names.take(ja));
    let ob_prev = ordered_class_seq(d, names.take(jb));

    let step_a = names.take(ja + 1);
    assert(step_a.drop_last() =~= names.take(ja));
    assert(step_a.last() == names[ja]);
    assert(oa == oa_prev.push(first_class_with_name(d.classes, a)));
    let step_b = names.take(jb + 1);
    assert(step_b.drop_last() =~= names.take(jb));
    assert(step_b.last() == names[jb]);
    assert(ob == ob_prev.push(first_class_with_name(d.classes, b)));

    let ia = oa.len() - 1;
    let ib = ob.len() - 1;
    lemma_ordered_prefix_mono(d, names, ja + 1, jb);
    assert(oa.len() <= ob_prev.len());
    assert(ia < ib);

    lemma_ordered_prefix_mono(d, names, ja + 1, names.len() as int);
    lemma_ordered_prefix_mono(d, names, jb + 1, names.len() as int);
    assert(names.take(names.len() as int) =~= names);
    let full = ordered_class_seq(d, names);
    assert(full == topo_classes(d));
    assert(full.take(oa.len() as int) == oa);
    assert(full.take(ob.len() as int) == ob);
    assert(full[ia] == oa[ia]) by {
        assert(full.take(oa.len() as int)[ia] == full[ia]);
    }
    assert(full[ib] == ob[ib]) by {
        assert(full.take(ob.len() as int)[ib] == full[ib]);
    }
    assert(oa[ia] == first_class_with_name(d.classes, a));
    assert(ob[ib] == first_class_with_name(d.classes, b));
    assert(exists|i: int| 0 <= i < d.classes.len() && d.classes[i].name == a);
    assert(exists|i: int| 0 <= i < d.classes.len() && d.classes[i].name == b);
    lemma_first_class_name(d.classes, a);
    lemma_first_class_name(d.classes, b);
    assert(0 <= ia < ib < full.len() && full[ia].name == a && full[ib].name == b);
}

/// The emission order of the full walk never repeats a name.
pub proof fn lemma_topo_order_names_no_dup(d: DiagramV)
    ensures
        topo_order_names(d).no_duplicates(),
{
    lemma_full_walk(d);
}

/// Each class node drawn in the render order carries a name from `names`,
/// and no two drawn nodes share a name when `names` has no duplicates.
pub proof fn lemma_ordered_names_unique(d: DiagramV, names: Seq<Seq<char>>)
    requires
        names.no_duplicates(),
    ensures
        forall|k: int|
            0 <= k < ordered_class_seq(d, names).len() ==> names.contains(
                #[trigger] ordered_class_seq(d, names)[k].name,
            ),
        forall|i: int, j: int|
            0 <= i < j < ordered_class_seq(d, names).len() ==> ordered_class_seq(d, names)[i].name
                != ordered_class_seq(d, names)[j].name,
    decreases names.len(),
{
    if names.len() > 0 {
        let prefix = names.drop_last();
        assert(prefix.no_duplicates());
        lemma_ordered_names_unique(d, prefix);
        let prev = ordered_class_seq(d, prefix);
        let cur = ordered_class_seq(d, names);
        assert forall|k: int| 0 <= k < prefix.len() implies names.contains(#[trigger] prefix[k])
        by {
            assert(names[k] == prefix[k]);
        }
        if class_name_set(d).contains(names.last()) {
            assert(exists|i: int| 0 <= i < d.classes.len() && d.classes[i].name == names.last());
            lemma_first_class_name(d.classes, names.last());
            assert(cur == prev.push(first_class_with_name(d.classes, names.last())));
            assert(cur.last().name == names.last());
            assert(!prefix.contains(names.last())) by {
                if prefix.contains(names.last()) {
                    let k = choose|k: int| 0 <= k < prefix.len() && prefix[k] == names.last();
                    assert(names[k] == names.last());
                }
            }
            assert forall|i: int, j: int| 0 <= i < j < cur.len() implies cur[i].name
                != cur[j].name by {
                if j < prev.len() {
                    assert(cur[i] == prev[i] && cur[j] == prev[j]);
                } else {
                    assert(cur[i] == prev[i]);
                    assert(prefix.contains(prev[i].name));
                }
            }
        } else {
            assert(cur == prev);
        }
    }
}

/// Every class name of the diagram gets a block in the render order.
pub proof fn lemma_every_class_rendered(d: DiagramV, n: Seq<char>)
    requires
        class_name_set(d).contains(n),
    ensures
        exists|k: int| 0 <= k < topo_classes(d).len() && topo_classes(d)[k].name == n,
{
    lemma_full_walk(d);
    let emitted = topo_order_names(d);
    assert(emitted.contains(n));
    let j = choose|j: int| 0 <= j < emitted.len() && emitted[j] == n;

    let oj = ordered_class_seq(d, emitted.take(j + 1));
    let step = emitted.take(j + 1);
    assert(step.drop_last() =~= emitted.take(j));
    assert(step.last() == emitted[j]);
    assert(oj == ordered_class_seq(d, emitted.take(j)).push(first_class_with_name(d.classes, n)));
    let k = oj.len() - 1;
    lemma_ordered_prefix_mono(d, emitted, j + 1, emitted.len() as int);
    assert(emitted.take(emitted.len() as int) =~= emitted);
    let full = ordered_class_seq(d, emitted);
    assert(full == topo_classes(d));
    assert(full.take(oj.len() as int) == oj);
    assert(full[k] == oj[k]) by {
        assert(full.take(oj.len() as int)[k] == full[k]);
    }
    assert(exists|i: int| 0 <= i < d.classes.len() && d.classes[i].name == n);
    lemma_first_class_name(d.classes, n);
    assert(0 <= k < full.len() && full[k].name == n);
}

/// Class names are unique in the rendered output: first insertion wins and
/// no block is drawn twice.
pub proof fn lemma_rendered_class_names_unique(d: DiagramV)
    ensures
        forall|i: int, j: int|
            0 <= i < j < topo_classes(d).len() ==> topo_classes(d)[i].name != topo_classes(
                d,
            )[j].name,
{
    lemma_topo_order_names_no_dup(d);
    lemma_ordered_names_unique(d, topo_order_names(d));
}

/// A sequence of names in strictly ascending lexicographic order.
pub open spec fn strictly_ascending(s: Seq<Seq<char>>) -> bool {
    forall|i: int, j: int| 0 <= i < j < s.len() ==> lex_lt(s[i], s[j])
}

/// Whether one of the strings of `v` reads `s`.
fn vec_contains_name(v: &Vec<String>, s: &str) -> (r: bool)
    ensures
        r == v.deep_view().to_set().contains(s@),
{
    let n = v.len();
    let mut i: usize = 0;
    while i < n
        invariant
            0 <= i <= n,
            n == v.len(),
            forall|j: int| 0 <= j < i ==> v.deep_view()[j] != s@,
        decreases n - i,
    {
        if crate::text::str_eq(v[i].as_str(), s) {
            proof {
                assert(v.deep_view()[i as int] == s@);
                assert(v.deep_view().contains(s@));
            }
            return true;
        }
        i = i + 1;
    }
    proof {
        if v.deep_view().to_set().contains(s@) {
            assert(v.deep_view().contains(s@));
        }
    }
    false
}

/// Insert `name` into the ascending vector `v`, unless it is already there.
fn insert_sorted_unique(v: &mut Vec<String>, name: &str)
    requires
        strictly_ascending(old(v).deep_view()),
    ensures
        strictly_ascending(final(v).deep_view()),
        final(v).deep_view().to_set() == old(v).deep_view().to_set().insert(name@),
{
    let ghost dv = v.deep_view();
    let n = v.len();
    let mut i: usize = 0;
    while i < n && str_lt(v[i].as_str(), name)
        invariant
            0 <= i <= n,
            n == v.len(),
            v.deep_view() == dv,
            forall|j: int| 0 <= j < i ==> lex_lt(dv[j], name@),
        decreases n - i,
    {
        proof {
            assert(dv[i as int] == v[i as int]@);
        }
        i = i + 1;
    }
    if i < n && crate::text::str_eq(v[i].as_str(), name) {
        proof {
            assert(dv[i as int] == name@);
            assert(dv.contains(name@));
            assert(dv.to_set() =~= dv.to_set().insert(name@));
        }
        return ;
    }
    proof {
        if i < n {
            assert(dv[i as int] == v[i as int]@);
            assert(!lex_lt(dv[i as int], name@));
            assert(dv[i as int] != name@);
            lemma_lex_trichotomy(dv[i as int], name@);
            assert(lex_lt(name@, dv[i as int]));
        }
    }
    v.insert(i, name.to_owned());
    proof {
        let dv2 = v.deep_view();
        assert(dv2 =~= dv.insert(i as int, name@)) by {
            assert forall|k: int| 0 <= k < dv2.len() implies dv2[k] == dv.insert(
                i as int,
                name@,
            )[k] by {
                assert(dv2[k] == v@[k]@);
            }
        }
        assert forall|a: int, b: int| 0 <= a < b < dv2.len() implies lex_lt(dv2[a], dv2[b]) by {
            let ia = i as int;
            if a < ia && b < ia {
            } else if a < ia && b == ia {
                assert(dv2[a] == dv[a]);
                assert(dv2[b] == name@);
                if !lex_lt(dv[a], name@) {
                }
            } else if a < ia && b > ia {
                assert(dv2[a] == dv[a]);
                assert(dv2[b] == dv[b - 1]);
                assert(lex_lt(name@, dv[ia]));
                if a < ia && ia <= b - 1 {
                    if ia == b - 1 {
                        lemma_lex_transitive(dv[a], name@, dv[b - 1]);
                    } else {
                        lemma_lex_transitive(dv[a], name@, dv[ia]);
                        lemma_lex_transitive(dv[a], dv[ia], dv[b - 1]);
                    }
                }
            } else if a == ia {
                assert(dv2[a] == name@);
                assert(dv2[b] == dv[b - 1]);
                if b - 1 == ia {
                    assert(lex_lt(name@, dv[ia]));
                } else {
                    lemma_lex_transitive(name@, dv[ia], dv[b - 1]);
                }
            } else {
                assert(dv2[a] == dv[a - 1]);
                assert(dv2[b] == dv[b - 1]);
            }
        }
        assert forall|x: Seq<char>| dv2.to_set().contains(x) implies dv.to_set().insert(
            name@,
        ).contains(x) by {
            let k = choose|k: int| 0 <= k < dv2.len() && dv2[k] == x;
            if k < i as int {
                assert(dv[k] == x);
                assert(dv.contains(x));
            } else if k == i as int {
            } else {
                assert(dv[k - 1] == x);
                assert(dv.contains(x));
            }
        }
        assert forall|x: Seq<char>| dv.to_set().insert(name@).contains(x) implies
            dv2.to_set().contains(x) by {
            if x == name@ {
                assert(dv2[i as int] == x);
                assert(dv2.contains(x));
            } else {
                assert(dv.contains(x));
                let k = choose|k: int| 0 <= k < dv.len() && dv[k] == x;
                if k < i as int {
                    assert(dv2[k] == x);
                } else {
                    assert(dv2[k + 1] == x);
                }
                assert(dv2.contains(x));
            }
        }
        assert(dv2.to_set() =~= dv.to_set().insert(name@));
    }
}

/// The dependencies recorded for `name` in the first `i` relationships and
/// the first `j` compositions.
pub open spec fn partial_deps(d: DiagramV, n: Seq<char>, i: int, j: int) -> Set<Seq<char>> {
    Set::new(
        |t: Seq<char>|
            (exists|k: int|
                0 <= k < i && d.relationships[k].from == n && d.relationships[k].to == t) || (
            exists|k: int|
                0 <= k < j && d.compositions[k].container == n && d.compositions[k].contained
                    == t),
    )
}

/// The dependencies of `name`, in ascending lexicographic order.
fn sorted_deps(d: &crate::renderer::Diagram, name: &str) -> (r: Vec<String>)
    ensures
        r.deep_view() == sorted_seq_of(deps_of(d@, name@)),
        strictly_ascending(r.deep_view()),
{
    let mut out: Vec<String> = Vec::new();
    let nr = d.relationships.len();
    let mut i: usize = 0;
    proof {
        assert(out.deep_view().to_set() =~= partial_deps(d@, name@, 0, 0));
    }
    while i < nr
        invariant
            0 <= i <= nr,
            nr == d.relationships.len(),
            strictly_ascending(out.deep_view()),
            out.deep_view().to_set() == partial_deps(d@, name@, i as int, 0),
        decreases nr - i,
    {
        let e = &d.relationships[i];
        proof {
            assert(d@.relationships[i as int] == d.relationships@[i as int]@);
        }
        if crate::text::str_eq(e.from.as_str(), name) {
            insert_sorted_unique(&mut out, e.to.as_str());
            proof {
                assert(out.deep_view().to_set() =~= partial_deps(d@, name@, i + 1, 0));
            }
        } else {
            proof {
                assert(out.deep_view().to_set() =~= partial_deps(d@, name@, i + 1, 0));
            }
        }
        i = i + 1;
    }
    let nc = d.compositions.len();
    let mut j: usize = 0;
    while j < nc
        invariant
            0 <= j <= nc,
            nc == d.compositions.len(),
            nr == d.relationships.len(),
            strictly_ascending(out.deep_view()),
            out.deep_view().to_set() == partial_deps(d@, name@, nr as int, j as int),
        decreases nc - j,
    {
        let e = &d.compositions[j];
        proof {
            assert(d@.compositions[j as int] == d.compositions@[j as int]@);
        }
        if crate::text::str_eq(e.container.as_str(), name) {
            insert_sorted_unique(&mut out, e.contained.as_str());
            proof {
                assert(out.deep_view().to_set() =~= partial_deps(d@, name@, nr as int, j + 1));
            }
        } else {
            proof {
                assert(out.deep_view().to_set() =~= partial_deps(d@, name@, nr as int, j + 1));
            }
        }
        j = j + 1;
    }
    proof {
        assert(out.deep_view().to_set() =~= deps_of(d@, name@));
        lemma_deps_in_universe(d@, name@);
        assert forall|x: Seq<char>| #[trigger] out.deep_view().contains(x) <==> deps_of(
            d@,
            name@,
        ).contains(x) by {
            assert(out.deep_view().contains(x) == out.deep_view().to_set().contains(x));
        }
        lemma_sorted_seq_unique(out.deep_view(), deps_of(d@, name@));
    }
    out
}

/// The class names of the diagram, in ascending lexicographic order.
fn sorted_class_names(d: &crate::renderer::Diagram) -> (r: Vec<String>)
    ensures
        r.deep_view() == sorted_seq_of(class_name_set(d@)),
        strictly_ascending(r.deep_view()),
{
    let mut out: Vec<String> = Vec::new();
    let n = d.classes.len();
    let mut i: usize = 0;
    proof {
        assert(out.deep_view().to_set() =~= Set::new(
            |t: Seq<char>| exists|k: int| 0 <= k < 0 && d@.classes[k].name == t,
        ));
    }
    while i < n
        invariant
            0 <= i <= n,
            n == d.classes.len(),
            strictly_ascending(out.deep_view()),
            out.deep_view().to_set() == Set::new(
                |t: Seq<char>| exists|k: int| 0 <= k < i && d@.classes[k].name == t,
            ),
        decreases n - i,
    {
        let c = &d.classes[i];
        proof {
            assert(d@.classes[i as int] == d.classes@[i as int]@);
        }
        insert_sorted_unique(&mut out, c.name.as_str());
        proof {
            assert(out.deep_view().to_set() =~= Set::new(
                |t: Seq<char>| exists|k: int| 0 <= k < i + 1 && d@.classes[k].name == t,
            ));
        }
        i = i + 1;
    }
    proof {
        assert(out.deep_view().to_set() =~= class_name_set(d@));
        lemma_class_name_set_finite(d@);
        assert forall|x: Seq<char>| #[trigger] out.deep_view().contains(x) <==> class_name_set(
            d@,
        ).contains(x) by {
            assert(out.deep_view().contains(x) == out.deep_view().to_set().contains(x));
        }
        lemma_sorted_seq_unique(out.deep_view(), class_name_set(d@));
    }
    out
}

/// Visit `name` depth-first, exactly as `topo_visit` describes.
fn visit_name(
    d: &crate::renderer::Diagram,
    name: &str,
    visited: &mut Vec<String>,
    order: &mut Vec<String>,
    Ghost(m): Ghost<nat>,
)
    requires
        universe(d@).contains(name@),
        m == universe(d@).difference(old(visited).deep_view().to_set()).len(),
    ensures
        topo_visit(
            universe(d@).difference(old(visited).deep_view().to_set()).len() + 1,
            name@,
            d@,
            old(visited).deep_view().to_set(),
            old(order).deep_view(),
        ) == Some(
            (final (visited).deep_view().to_set(), final (order).deep_view()),
        ),
    decreases m,
{
    let ghost u = universe(d@);
    let ghost v0 = visited.deep_view().to_set();
    let ghost o0 = order.deep_view();
    let ghost fuel = u.difference(v0).len() + 1;
    proof {
        lemma_universe_finite(d@);
        vstd::seq_lib::seq_to_set_is_finite(visited.deep_view());
    }
    if vec_contains_name(visited, name) {
        proof {
            assert(topo_visit(fuel, name@, d@, v0, o0) == Some((v0, o0)));
        }
        return ;
    }
    visited.push(name.to_owned());
    let ghost v1 = v0.insert(name@);
    proof {
        assert(visited.deep_view() =~= old(visited).deep_view().push(name@));
        old(visited).deep_view().lemma_push_to_set_commute(name@);
        assert(visited.deep_view().to_set() == v1);
        assert(u.difference(v1) =~= u.difference(v0).remove(name@));
        assert(u.difference(v0).contains(name@));
        assert(u.difference(v1).len() == u.difference(v0).len() - 1);
    }
    let ghost sub_fuel = (fuel - 1) as nat;
    let deps = sorted_deps(d, name);
    let ghost depsv = deps.deep_view();
    proof {
        lemma_deps_in_universe(d@, name@);
        lemma_sorted_seq_of(deps_of(d@, name@));
        assert forall|k: int| 0 <= k < depsv.len() implies u.contains(#[trigger] depsv[k]) by {
            assert(depsv.contains(depsv[k]));
            assert(deps_of(d@, name@).contains(depsv[k]));
        }
    }
    let nd = deps.len();
    let mut k: usize = 0;
    proof {
        assert(depsv.skip(0) =~= depsv);
        assert(u.difference(v1).subset_of(u));
        lemma_len_subset(u.difference(v1), u);
    }
    while k < nd
        invariant
            0 <= k <= nd,
            nd == deps.len(),
            deps.deep_view() == depsv,
            depsv == sorted_seq_of(deps_of(d@, name@)),
            forall|t: int| 0 <= t < depsv.len() ==> u.contains(#[trigger] depsv[t]),
            u == universe(d@),
            u.finite(),
            v1.subset_of(visited.deep_view().to_set()),
            visited.deep_view().to_set().subset_of(v1.union(u)),
            visited.deep_view().to_set().finite(),
            sub_fuel == u.difference(v0).len(),
            m == u.difference(v0).len(),
            u.difference(v1).len() == sub_fuel - 1,
            sub_fuel > u.difference(visited.deep_view().to_set()).len(),
            topo_visit_list(
                sub_fuel,
                depsv.skip(k as int),
                d@,
                visited.deep_view().to_set(),
                order.deep_view(),
            ) == topo_visit_list(sub_fuel, depsv, d@, v1, o0),
        decreases nd - k,
    {
        let ghost cur_v = visited.deep_view().to_set();
        let ghost cur_o = order.deep_view();
        let dep = &deps[k];
        proof {
            assert(depsv[k as int] == deps@[k as int]@);
            assert(u.difference(cur_v).len() < u.difference(v0).len());
        }
        visit_name(d, dep.as_str(), visited, order, Ghost(u.difference(cur_v).len()));
        proof {
            let fk = u.difference(cur_v).len() + 1;
            let new_v = visited.deep_view().to_set();
            let new_o = order.deep_view();
            assert(topo_visit(fk, depsv[k as int], d@, cur_v, cur_o) == Some((new_v, new_o)));
            lemma_topo_visit_fuel(fk, sub_fuel, depsv[k as int], d@, cur_v, cur_o);
            assert(topo_visit(sub_fuel, depsv[k as int], d@, cur_v, cur_o) == Some(
                (new_v, new_o),
            ));
            assert(depsv.skip(k as int)[0] == depsv[k as int]);
            assert(depsv.skip(k as int).skip(1) =~= depsv.skip(k + 1));
            assert(topo_visit_list(sub_fuel, depsv.skip(k as int), d@, cur_v, cur_o)
                == topo_visit_list(sub_fuel, depsv.skip(k + 1), d@, new_v, new_o));
            assert(v1.subset_of(new_v));
            assert(new_v.subset_of(v1.union(u)));
            assert(u.difference(new_v).subset_of(u.difference(v1)));
            assert(u.difference(v1).finite()) by {
                lemma_len_subset(u.difference(v1), u);
            }
            lemma_len_subset(u.difference(new_v), u.difference(v1));
            assert(u.difference(v1).len() == sub_fuel - 1);
            assert(sub_fuel > u.difference(new_v).len());
        }
        k = k + 1;
    }
    proof {
        assert(depsv.skip(nd as int) =~= Seq::<Seq<char>>::empty());
        assert(topo_visit_list(
            sub_fuel,
            depsv.skip(nd as int),
            d@,
            visited.deep_view().to_set(),
            order.deep_view(),
        ) == Some((visited.deep_view().to_set(), order.deep_view())));
    }
    let ghost before_push_o = order.deep_view();
    order.push(name.to_owned());
    proof {
        assert(order.deep_view() =~= before_push_o.push(name@));
        assert(topo_visit_list(sub_fuel, depsv, d@, v1, o0) == Some(
            (visited.deep_view().to_set(), before_push_o),
        ));
        assert(topo_visit(fuel, name@, d@, v0, o0) == Some(
            (visited.deep_view().to_set(), before_push_o.push(name@)),
        ));
    }
}

/// The emission order of the full depth-first walk over the diagram.
pub fn topo_order_of(d: &crate::renderer::Diagram) -> (r: Vec<String>)
    ensures
        r.deep_view() == topo_order_names(d@),
{
    let names = sorted_class_names(d);
    let ghost namesv = names.deep_view();
    let ghost u = universe(d@);
    let ghost fuel0 = topo_fuel(d@);
    let mut visited: Vec<String> = Vec::new();
    let mut order: Vec<String> = Vec::new();
    proof {
        lemma_universe_finite(d@);
        lemma_class_name_set_finite(d@);
        lemma_sorted_seq_of(class_name_set(d@));
        assert forall|k: int| 0 <= k < namesv.len() implies u.contains(#[trigger] namesv[k]) by {
            assert(namesv.contains(namesv[k]));
            assert(class_name_set(d@).contains(namesv[k]));
        }
        assert(visited.deep_view().to_set() =~= Set::<Seq<char>>::empty());
        assert(order.deep_view() =~= Seq::<Seq<char>>::empty());
        assert(u.difference(visited.deep_view().to_set()) =~= u);
        lemma_len_subset(u.difference(Set::<Seq<char>>::empty()), u);
    }
    let n = names.len();
    let mut k: usize = 0;
    proof {
        assert(namesv.skip(0) =~= namesv);
    }
    while k < n
        invariant
            0 <= k <= n,
            n == names.len(),
            names.deep_view() == namesv,
            namesv == sorted_seq_of(class_name_set(d@)),
            forall|t: int| 0 <= t < namesv.len() ==> u.contains(#[trigger] namesv[t]),
            u == universe(d@),
            u.finite(),
            fuel0 == topo_fuel(d@),
            visited.deep_view().to_set().subset_of(u),
            visited.deep_view().to_set().finite(),
            topo_visit_list(
                fuel0,
                namesv.skip(k as int),
                d@,
                visited.deep_view().to_set(),
                order.deep_view(),
            ) == topo_visit_list(fuel0, namesv, d@, Set::empty(), Seq::empty()),
        decreases n - k,
    {
        let ghost cur_v = visited.deep_view().to_set();
        let ghost cur_o = order.deep_view();
        let name = &names[k];
        proof {
            assert(namesv[k as int] == names@[k as int]@);
            assert(u.difference(cur_v).subset_of(u));
            lemma_len_subset(u.difference(cur_v), u);
        }
        visit_name(
            d,
            name.as_str(),
            &mut visited,
            &mut order,
            Ghost(u.difference(cur_v).len()),
        );
        proof {
            let fk = u.difference(cur_v).len() + 1;
            let new_v = visited.deep_view().to_set();
            let new_o = order.deep_view();
            assert(topo_visit(fk, namesv[k as int], d@, cur_v, cur_o) == Some((new_v, new_o)));
            lemma_topo_visit_fuel(fk, fuel0, namesv[k as int], d@, cur_v, cur_o);
            assert(topo_visit(fuel0, namesv[k as int], d@, cur_v, cur_o) == Some(
                (new_v, new_o),
            ));
            lemma_topo_visit_fuel(fuel0, fuel0, namesv[k as int], d@, cur_v, cur_o);
            assert(new_v.subset_of(cur_v.union(u)));
            assert(namesv.skip(k as int)[0] == namesv[k as int]);
            assert(namesv.skip(k as int).skip(1) =~= namesv.skip(k + 1));
            assert(topo_visit_list(fuel0, namesv.skip(k as int), d@, cur_v, cur_o)
                == topo_visit_list(fuel0, namesv.skip(k + 1), d@, new_v, new_o));
        }
        k = k + 1;
    }
    proof {
        assert(namesv.skip(n as int) =~= Seq::<Seq<char>>::empty());
        assert(topo_visit_list(fuel0, namesv, d@, Set::empty(), Seq::empty()) == Some(
            (visited.deep_view().to_set(), order.deep_view()),
        ));
    }
    order
}

} // verus!
