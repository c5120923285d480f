//! Classification of a class definition into one `ClassType`.

use crate::class_helpers::{is_abstract_bases_spec, is_dataclass_spec, is_protocol_spec,
    resolves_to_abc, resolves_to_protocol};
use crate::renderer::ClassType;
use crate::semantic::{segments2, ClassDef, ClassStmt, TypeExpr};
use vstd::prelude::*;

verus! {

/// Whether a base resolution names an abstract-base marker recognized by
/// the classifier: `abc.ABC`, `abc.ABCMeta` or `typing.ABC`.
pub open spec fn resolves_to_abstract_marker(r: Option<Seq<Seq<char>>>) -> bool {
    resolves_to_abc(r) || (r matches Some(segments) && segments2(segments, "typing"@, "ABC"@))
}

/// Whether some method of the class body carries an abstract-method
/// marker, as the facade reports it.
pub open spec fn has_abstract_method_spec(body: Seq<ClassStmt>) -> bool {
    exists|i: int|
        0 <= i < body.len() && ((#[trigger] body[i]) matches ClassStmt::FunctionDef(m)
            && m.is_abstract)
}

/// An abstract class: a body method carries an abstract-method marker, the
/// bases or a metaclass keyword carry an ABC marker, or some base resolves
/// to a recognized abstract marker.
pub open spec fn is_abstract_class_spec(c: ClassDef) -> bool {
    has_abstract_method_spec(c.body@) || is_abstract_bases_spec(c) || (exists|i: int|
        0 <= i < c.bases@.len() && resolves_to_abstract_marker(
            #[trigger] c.bases@[i].resolution(),
        ))
}

/// The kind assigned to a class, by strict precedence:
/// Interface > Dataclass > Abstract > Enumeration > Final > Regular.
pub open spec fn detect_type_spec(c: ClassDef) -> ClassType {
    if is_protocol_spec(c) {
        ClassType::Interface
    } else if is_dataclass_spec(c) {
        ClassType::Dataclass
    } else if is_abstract_class_spec(c) {
        ClassType::Abstract
    } else if c.is_enum {
        ClassType::Enumeration
    } else if c.is_final_decorated {
        ClassType::Final
    } else {
        ClassType::Regular
    }
}

/// Check if a class is abstract: a body method carries an abstract-method
/// marker, the bases or keywords carry an ABC marker, or a base resolves
/// to a recognized abstract marker.
fn is_abstract(class: &ClassDef) -> (r: bool)
    ensures
        r == is_abstract_class_spec(*class),
{
    let nb = class.body.len();
    let mut k: usize = 0;
    while k < nb
        invariant
            0 <= k <= nb,
            nb == class.body.len(),
            forall|j: int|
                0 <= j < k ==> !(((#[trigger] class.body@[j]) matches ClassStmt::FunctionDef(m)
                    && m.is_abstract)),
        decreases nb - k,
    {
        let marked = match &class.body[k] {
            ClassStmt::FunctionDef(m) => m.is_abstract,
            _ => false,
        };
        if marked {
            proof {
                assert((class.body@[k as int] matches ClassStmt::FunctionDef(m)
                    && m.is_abstract));
            }
            return true;
        }
        k = k + 1;
    }
    if class.is_abstract() {
        return true;
    }
    let n = class.bases.len();
    let mut i: usize = 0;
    while i < n
        invariant
            0 <= i <= n,
            n == class.bases.len(),
            forall|j: int|
                0 <= j < i ==> !resolves_to_abstract_marker(
                    #[trigger] class.bases@[j].resolution(),
                ),
        decreases n - i,
    {
        let base = &class.bases[i];
        let matched = base.resolves_abc() || (match base.resolution_ref() {
            Some(segments) => crate::semantic::segments_match2(segments, "typing", "ABC"),
            None => false,
        });
        if matched {
            proof {
                assert(resolves_to_abstract_marker(class.bases@[i as int].resolution()));
            }
            return true;
        }
        i = i + 1;
    }
    false
}

/// Determine the `ClassType` for a given class definition.
pub fn detect_type(class: &ClassDef) -> (r: ClassType)
    ensures
        r == detect_type_spec(*class),
{
    if class.is_protocol() {
        ClassType::Interface
    } else if class.is_dataclass() {
        ClassType::Dataclass
    } else if is_abstract(class) {
        ClassType::Abstract
    } else if class.is_enum {
        ClassType::Enumeration
    } else if class.is_final_decorated {
        ClassType::Final
    } else {
        ClassType::Regular
    }
}

/// Whether a base expression resolves to a standard-library abstract or
/// protocol marker; such bases draw a dotted arrow.
pub open spec fn stdlib_abstract_or_protocol_spec(base: TypeExpr) -> bool {
    resolves_to_abc(base.resolution()) || resolves_to_protocol(base.resolution())
}

/// Check if a base class is a standard-library ABC or Protocol. Used for
/// determining relationship types (solid vs dotted lines).
pub fn is_base_abstract_or_protocol(base: &TypeExpr) -> (r: bool)
    ensures
        r == stdlib_abstract_or_protocol_spec(*base),
{
    base.resolves_abc() || base.resolves_protocol()
}

} // verus!
