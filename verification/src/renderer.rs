//! The diagram data model: classes with their members, inheritance and
//! implementation relationships, composition edges, and the `Diagram` that
//! collects them while a source unit is scanned.

use crate::text::str_eq;
use vstd::prelude::*;

verus! {

/// Represents visibility of class members (public, private, protected)
#[derive(Debug, Clone, Copy, PartialEq, Eq, Structural, Hash)]
pub enum Visibility {
    Public,
    Private,
    /// Reserved for future use - Python doesn't have true protected visibility
    #[allow(dead_code)]
    Protected,
}

/// Type of class (regular, abstract, interface/protocol, enum, dataclass)
#[derive(Debug, Clone, Copy, PartialEq, Eq, Structural)]
pub enum ClassType {
    Regular,
    Abstract,
    Interface,
    Enumeration,
    Dataclass,
    Final,
}

/// Type of relationship between classes
#[derive(Debug, Clone, Copy, PartialEq, Eq, Structural, Hash)]
pub enum RelationType {
    /// Solid line: `--|>`
    Inheritance,
    /// Dotted line: `..|>` (for interfaces/abstracts)
    Implementation,
}

/// Class diagram direction.
#[derive(Debug, Clone, Copy, PartialEq, Eq, Structural)]
pub enum DiagramDirection {
    /// Top to bottom (default)
    TB,
    /// Bottom to top
    BT,
    /// Left to right
    LR,
    /// Right to left
    RL,
}

impl Default for DiagramDirection {
    fn default() -> (r: Self)
        ensures
            r == DiagramDirection::TB,
    {
        DiagramDirection::TB
    }
}

/// Represents a class attribute/field
#[derive(Debug, Clone, PartialEq, Eq, Hash)]
pub struct Attribute {
    pub name: String,
    pub type_annotation: String,
    pub visibility: Visibility,
}

/// Mathematical value of an [`Attribute`].
pub ghost struct AttributeV {
    pub name: Seq<char>,
    pub type_annotation: Seq<char>,
    pub visibility: Visibility,
}

impl View for Attribute {
    type V = AttributeV;

    open spec fn view(&self) -> AttributeV {
        AttributeV {
            name: self.name@,
            type_annotation: self.type_annotation@,
            visibility: self.visibility,
        }
    }
}

/// Represents a method of a class
#[derive(Debug, Clone, PartialEq, Eq, Hash)]
pub struct MethodSignature {
    pub name: String,
    pub parameters: String,
    pub return_type: Option<String>,
    pub visibility: Visibility,
    pub is_static: bool,
    pub is_abstract: bool,
    pub is_async: bool,
    pub decorators: Vec<String>,
}

/// Mathematical value of a [`MethodSignature`].
pub ghost struct MethodSignatureV {
    pub name: Seq<char>,
    pub parameters: Seq<char>,
    pub return_type: Option<Seq<char>>,
    pub visibility: Visibility,
    pub is_static: bool,
    pub is_abstract: bool,
    pub is_async: bool,
    pub decorators: Seq<Seq<char>>,
}

impl View for MethodSignature {
    type V = MethodSignatureV;

    open spec fn view(&self) -> MethodSignatureV {
        MethodSignatureV {
            name: self.name@,
            parameters: self.parameters@,
            return_type: match self.return_type {
                Some(t) => Some(t@),
                None => None,
            },
            visibility: self.visibility,
            is_static: self.is_static,
            is_abstract: self.is_abstract,
            is_async: self.is_async,
            decorators: self.decorators.deep_view(),
        }
    }
}

/// Represents a class node in the diagram
#[derive(Debug, Clone)]
pub struct ClassNode {
    pub name: String,
    pub type_params: Option<String>,
    pub class_type: ClassType,
    pub attributes: Vec<Attribute>,
    pub methods: Vec<MethodSignature>,
}

/// Mathematical value of a [`ClassNode`].
pub ghost struct ClassNodeV {
    pub name: Seq<char>,
    pub type_params: Option<Seq<char>>,
    pub class_type: ClassType,
    pub attributes: Seq<AttributeV>,
    pub methods: Seq<MethodSignatureV>,
}

impl View for ClassNode {
    type V = ClassNodeV;

    open spec fn view(&self) -> ClassNodeV {
        ClassNodeV {
            name: self.name@,
            type_params: match self.type_params {
                Some(t) => Some(t@),
                None => None,
            },
            class_type: self.class_type,
            attributes: self.attributes@.map_values(|a: Attribute| a@),
            methods: self.methods@.map_values(|m: MethodSignature| m@),
        }
    }
}

/// Represents an inheritance or implementation relationship
#[derive(Debug, Clone, PartialEq, Eq, Hash)]
pub struct RelationshipEdge {
    pub from: String,
    pub to: String,
    pub relation_type: RelationType,
}

/// Mathematical value of a [`RelationshipEdge`].
pub ghost struct RelationshipEdgeV {
    pub from: Seq<char>,
    pub to: Seq<char>,
    pub relation_type: RelationType,
}

impl View for RelationshipEdge {
    type V = RelationshipEdgeV;

    open spec fn view(&self) -> RelationshipEdgeV {
        RelationshipEdgeV { from: self.from@, to: self.to@, relation_type: self.relation_type }
    }
}

/// Represents a composition relationship
#[derive(Debug, Clone, PartialEq, Eq, Hash)]
pub struct CompositionEdge {
    pub container: String,
    pub contained: String,
}

/// Mathematical value of a [`CompositionEdge`].
pub ghost struct CompositionEdgeV {
    pub container: Seq<char>,
    pub contained: Seq<char>,
}

impl View for CompositionEdge {
    type V = CompositionEdgeV;

    open spec fn view(&self) -> CompositionEdgeV {
        CompositionEdgeV { container: self.container@, contained: self.contained@ }
    }
}

/// The complete diagram structure
#[derive(Debug, Clone)]
pub struct Diagram {
    pub classes: Vec<ClassNode>,
    pub relationships: Vec<RelationshipEdge>,
    pub compositions: Vec<CompositionEdge>,
}

/// Mathematical value of a [`Diagram`].
pub ghost struct DiagramV {
    pub classes: Seq<ClassNodeV>,
    pub relationships: Seq<RelationshipEdgeV>,
    pub compositions: Seq<CompositionEdgeV>,
}

impl View for Diagram {
    type V = DiagramV;

    open spec fn view(&self) -> DiagramV {
        DiagramV {
            classes: self.classes@.map_values(|c: ClassNode| c@),
            relationships: self.relationships@.map_values(|r: RelationshipEdge| r@),
            compositions: self.compositions@.map_values(|c: CompositionEdge| c@),
        }
    }
}

impl DiagramV {
    /// A diagram with no classes and no edges at all.
    pub open spec fn is_empty(self) -> bool {
        self.classes.len() == 0 && self.relationships.len() == 0 && self.compositions.len() == 0
    }

    /// Whether some class of this diagram is named `name` and drawn as
    /// abstract or as an interface.
    pub open spec fn has_abstract_or_interface(self, name: Seq<char>) -> bool {
        exists|i: int|
            0 <= i < self.classes.len() && self.classes[i].name == name && (self.classes[
                i
            ].class_type == ClassType::Abstract || self.classes[i].class_type
                == ClassType::Interface)
    }
}

impl Default for Diagram {
    fn default() -> (r: Self)
        ensures
            r@.is_empty(),
            r@.classes == Seq::<ClassNodeV>::empty(),
            r@.relationships == Seq::<RelationshipEdgeV>::empty(),
            r@.compositions == Seq::<CompositionEdgeV>::empty(),
    {
        Diagram { classes: Vec::new(), relationships: Vec::new(), compositions: Vec::new() }
    }
}

impl Diagram {
    pub fn new() -> (r: Self)
        ensures
            r@.is_empty(),
            r@.classes == Seq::<ClassNodeV>::empty(),
            r@.relationships == Seq::<RelationshipEdgeV>::empty(),
            r@.compositions == Seq::<CompositionEdgeV>::empty(),
    {
        Diagram::default()
    }

    pub fn is_empty(&self) -> (r: bool)
        ensures
            r == self@.is_empty(),
    {
        self.classes.is_empty() && self.relationships.is_empty() && self.compositions.is_empty()
    }

    pub fn add_class(&mut self, class: ClassNode)
        ensures
            final(self)@.classes == old(self)@.classes.push(class@),
            final(self)@.relationships == old(self)@.relationships,
            final(self)@.compositions == old(self)@.compositions,
    {
        self.classes.push(class);
        proof {
            assert(self@.classes =~= old(self)@.classes.push(class@));
        }
    }

    pub fn add_relationship(&mut self, relationship: RelationshipEdge)
        ensures
            final(self)@.classes == old(self)@.classes,
            final(self)@.relationships == old(self)@.relationships.push(relationship@),
            final(self)@.compositions == old(self)@.compositions,
    {
        self.relationships.push(relationship);
        proof {
            assert(self@.relationships =~= old(self)@.relationships.push(relationship@));
        }
    }

    pub fn add_composition(&mut self, composition: CompositionEdge)
        ensures
            final(self)@.classes == old(self)@.classes,
            final(self)@.relationships == old(self)@.relationships,
            final(self)@.compositions == old(self)@.compositions.push(composition@),
    {
        self.compositions.push(composition);
        proof {
            assert(self@.compositions =~= old(self)@.compositions.push(composition@));
        }
    }

    /// Whether a class named `name` is already known in this diagram to be
    /// abstract or an interface.
    pub fn is_abstract_or_interface(&self, name: &str) -> (r: bool)
        ensures
            r == self@.has_abstract_or_interface(name@),
    {
        let n = self.classes.len();
        let mut i: usize = 0;
        while i < n
            invariant
                0 <= i <= n,
                n == self.classes.len(),
                forall|j: int|
                    0 <= j < i ==> !(self@.classes[j].name == name@ && (self@.classes[
                        j
                    ].class_type == ClassType::Abstract || self@.classes[j].class_type
                        == ClassType::Interface)),
            decreases n - i,
        {
            let c = &self.classes[i];
            if (matches!(c.class_type, ClassType::Abstract | ClassType::Interface)) && str_eq(
                c.name.as_str(),
                name,
            ) {
                proof {
                    assert(self@.classes[i as int] == self.classes@[i as int]@);
                }
                return true;
            }
            i = i + 1;
        }
        false
    }

    /// Return classes in a deterministic topological order based on
    /// relationships and compositions, without mutating the diagram.
    /// Classes are de-duplicated by name (first occurrence wins).
    pub fn classes_topologically_sorted_unique(&self) -> (r: Vec<&ClassNode>)
        ensures
            r@.map_values(|c: &ClassNode| c@) == crate::topo_order::topo_classes(self@),
    {
        let names = crate::topo_order::topo_order_of(self);
        let ghost ordv = names.deep_view();
        let mut out: Vec<&ClassNode> = Vec::new();
        let n = names.len();
        let mut k: usize = 0;
        proof {
            assert(ordv.take(0) =~= Seq::<Seq<char>>::empty());
            assert(out@.map_values(|c: &ClassNode| c@) =~= crate::topo_order::ordered_class_seq(
                self@,
                ordv.take(0),
            ));
        }
        while k < n
            invariant
                0 <= k <= n,
                n == names.len(),
                names.deep_view() == ordv,
                out@.map_values(|c: &ClassNode| c@) == crate::topo_order::ordered_class_seq(
                    self@,
                    ordv.take(k as int),
                ),
            decreases n - k,
        {
            let name = &names[k];
            proof {
                assert(ordv[k as int] == names@[k as int]@);
            }
            let nc = self.classes.len();
            let mut i: usize = 0;
            let mut found = false;
            while i < nc && !found
                invariant
                    0 <= i <= nc,
                    nc == self.classes.len(),
                    !found ==> forall|j: int| 0 <= j < i ==> self@.classes[j].name != name@,
                    found ==> i < nc && self@.classes[i as int].name == name@ && (forall|j: int|
                        0 <= j < i ==> self@.classes[j].name != name@),
                decreases nc - i + (if found { 0int } else { 1int }),
            {
                if str_eq(self.classes[i].as_name_str(), name.as_str()) {
                    found = true;
                } else {
                    i = i + 1;
                }
            }
            proof {
                let prefix = ordv.take(k as int);
                let step = ordv.take(k + 1);
                assert(step.drop_last() =~= prefix);
                assert(step.last() == ordv[k as int]);
            }
            if found {
                let c = &self.classes[i];
                out.push(c);
                proof {
                    assert(self@.classes[i as int] == self.classes@[i as int]@);
                    crate::topo_order::lemma_first_class_at(self@.classes, name@, i as int);
                    assert(crate::topo_order::class_name_set(self@).contains(name@));
                    assert(out@.map_values(|c: &ClassNode| c@)
                        =~= crate::topo_order::ordered_class_seq(self@, ordv.take(k + 1)));
                }
            } else {
                proof {
                    assert(!crate::topo_order::class_name_set(self@).contains(name@)) by {
                        if crate::topo_order::class_name_set(self@).contains(name@) {
                            let j = choose|j: int|
                                0 <= j < self@.classes.len() && self@.classes[j].name == name@;
                            assert(self@.classes[j].name != name@);
                        }
                    }
                    assert(out@.map_values(|c: &ClassNode| c@)
                        =~= crate::topo_order::ordered_class_seq(self@, ordv.take(k + 1)));
                }
            }
            k = k + 1;
        }
        proof {
            assert(ordv.take(n as int) =~= ordv);
        }
        out
    }
}

/// The direction a (already uppercased) name stands for, if any.
pub open spec fn direction_of_upper(u: Seq<char>) -> Option<DiagramDirection> {
    if u == "TB"@ {
        Some(DiagramDirection::TB)
    } else if u == "BT"@ {
        Some(DiagramDirection::BT)
    } else if u == "LR"@ {
        Some(DiagramDirection::LR)
    } else if u == "RL"@ {
        Some(DiagramDirection::RL)
    } else {
        None
    }
}

/// Parse a direction name case-insensitively: the uppercased input must
/// read `TB`, `BT`, `LR` or `RL`.
pub fn parse_direction(s: &str) -> (r: Option<DiagramDirection>)
    ensures
        r == direction_of_upper(crate::text::upper_of(s@)),
{
    let upper = crate::text::to_uppercase(s);
    if str_eq(upper.as_str(), "TB") {
        Some(DiagramDirection::TB)
    } else if str_eq(upper.as_str(), "BT") {
        Some(DiagramDirection::BT)
    } else if str_eq(upper.as_str(), "LR") {
        Some(DiagramDirection::LR)
    } else if str_eq(upper.as_str(), "RL") {
        Some(DiagramDirection::RL)
    } else {
        None
    }
}

impl core::str::FromStr for DiagramDirection {
    type Err = String;

    /// Parse a direction name, case-insensitively, via `parse_direction`.
    fn from_str(s: &str) -> Result<Self, String> {
        match parse_direction(s) {
            Some(direction) => Ok(direction),
            None => {
                let mut msg = String::new();
                msg.append("invalid direction: ");
                msg.append(s);
                msg.append(" (expected TB, BT, LR, or RL)");
                Err(msg)
            },
        }
    }
}

impl ClassNode {
    /// The class's name as a string slice.
    pub fn as_name_str(&self) -> (r: &str)
        ensures
            r@ == self@.name,
    {
        self.name.as_str()
    }
}

} // verus!
