//! The crate's laws: properties of the diagram pipeline that hold for all
//! inputs, stated over the same spec functions the executable code is
//! verified against.

use crate::class_helpers::{is_dataclass_spec, is_protocol_spec};
use crate::class_type_detector::detect_type_spec;
use crate::mermaid_renderer::{class_block_spec, has_body_spec, indent_spec, render_diagram_spec};
use crate::renderer::{ClassNodeV, ClassType, DiagramDirection, DiagramV};
use crate::semantic::ClassDef;
use crate::topo_order::{acyclic, class_name_set, deps_of, first_class_with_name,
    lemma_class_order_respects_deps, lemma_first_class_remove_dup_name,
    lemma_first_class_remove_other, lemma_ordered_class_seq_same, lemma_topo_order_names_same,
    topo_classes, topo_order_names};
use vstd::prelude::*;

verus! {

/// A class that shows nothing — no attributes, no methods, regular kind —
/// renders as a bare `class` line: its block has no brace body.
pub proof fn lemma_plain_class_has_no_body(c: ClassNodeV)
    requires
        c.attributes.len() == 0,
        c.methods.len() == 0,
        c.class_type == ClassType::Regular,
    ensures
        !has_body_spec(c),
        class_block_spec(c) == indent_spec(1) + "class "@ + c.name + (match c.type_params {
            Some(tp) => " ~"@ + tp + "~"@,
            None => Seq::<char>::empty(),
        }) + "\n\n"@,
{
    assert(class_block_spec(c) =~= indent_spec(1) + "class "@ + c.name + (match c.type_params {
        Some(tp) => " ~"@ + tp + "~"@,
        None => Seq::<char>::empty(),
    }) + "\n\n"@);
}

/// Rendering is a function of the diagram value alone: two renderings of
/// the same diagram are byte-identical.
pub proof fn lemma_render_deterministic(
    d: DiagramV,
    title: Option<Seq<char>>,
    direction: DiagramDirection,
    r1: Seq<char>,
    r2: Seq<char>,
)
    requires
        render_diagram_spec(d, title, direction) == Some(r1),
        render_diagram_spec(d, title, direction) == Some(r2),
    ensures
        r1 == r2,
{
}

/// Interface wins over Dataclass: a class with both a Protocol base and a
/// dataclass decorator classifies as an interface.
pub proof fn lemma_interface_beats_dataclass(c: ClassDef)
    requires
        is_protocol_spec(c),
        is_dataclass_spec(c),
    ensures
        detect_type_spec(c) == ClassType::Interface,
{
}

/// Adding two classes with one name keeps only the first one's members in
/// the rendered text: removing the later duplicate changes nothing.
pub proof fn lemma_duplicate_class_ignored(
    d: DiagramV,
    j: int,
    title: Option<Seq<char>>,
    direction: DiagramDirection,
)
    requires
        0 <= j < d.classes.len(),
        exists|i: int| 0 <= i < j && d.classes[i].name == d.classes[j].name,
    ensures
        render_diagram_spec(
            DiagramV {
                classes: d.classes.remove(j),
                relationships: d.relationships,
                compositions: d.compositions,
            },
            title,
            direction,
        ) == render_diagram_spec(d, title, direction),
{
    let d2 = DiagramV {
        classes: d.classes.remove(j),
        relationships: d.relationships,
        compositions: d.compositions,
    };
    assert(d2.classes.len() == d.classes.len() - 1);
    assert(!d.is_empty());
    assert(!d2.is_empty());

    assert forall|n: Seq<char>| class_name_set(d2).contains(n) implies class_name_set(
        d,
    ).contains(n) by {
        let k = choose|k: int| 0 <= k < d2.classes.len() && d2.classes[k].name == n;
        if k < j {
            assert(d.classes[k].name == n);
        } else {
            assert(d2.classes[k] == d.classes[k + 1]);
        }
    }
    assert forall|n: Seq<char>| class_name_set(d).contains(n) implies class_name_set(
        d2,
    ).contains(n) by {
        let k = choose|k: int| 0 <= k < d.classes.len() && d.classes[k].name == n;
        if k < j {
            assert(d2.classes[k] == d.classes[k]);
        } else if k == j {
            let i = choose|i: int| 0 <= i < j && d.classes[i].name == d.classes[j].name;
            assert(d2.classes[i] == d.classes[i]);
        } else {
            assert(d2.classes[k - 1] == d.classes[k]);
        }
    }
    assert(class_name_set(d2) =~= class_name_set(d));

    lemma_topo_order_names_same(d2, d);

    let dup_name = d.classes[j].name;
    assert forall|n: Seq<char>|
        first_class_with_name(d2.classes, n) == first_class_with_name(d.classes, n) by {
        if n == dup_name {
            lemma_first_class_remove_dup_name(d.classes, j, n);
        } else {
            lemma_first_class_remove_other(d.classes, j, n);
        }
    }
    lemma_ordered_class_seq_same(d2, d, topo_order_names(d));
    assert(topo_classes(d2) == topo_classes(d));
}

/// In an acyclic diagram, when class `b` lists class `a` as a base (a
/// relationship edge runs from `b` to `a`) and both are classes of the
/// diagram, `a`'s block precedes `b`'s block in the render order.
pub proof fn lemma_base_block_precedes(d: DiagramV, e: int, a: Seq<char>, b: Seq<char>)
    requires
        acyclic(d),
        0 <= e < d.relationships.len(),
        d.relationships[e].from == b,
        d.relationships[e].to == a,
        class_name_set(d).contains(a),
        class_name_set(d).contains(b),
    ensures
        exists|ia: int, ib: int|
            0 <= ia < ib < topo_classes(d).len() && topo_classes(d)[ia].name == a
                && topo_classes(d)[ib].name == b,
{
    assert(deps_of(d, b).contains(a));
    lemma_class_order_respects_deps(d, a, b);
}

} // verus!

