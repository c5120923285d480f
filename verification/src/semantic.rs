//! The plain-data view of one analysed source unit.
//!
//! Parsing and name resolution happen outside this crate; the caller hands
//! each class definition over in the record types below. An expression is
//! reduced to the small tagged tree the analysis reads — a (possibly
//! dotted) name, a subscript, a tuple, a binary `or` — with its raw source
//! text and, where the resolver could map it, its dotted qualified name.

use vstd::prelude::*;

verus! {

/// A name-like expression: its source text and, if resolution succeeded,
/// the segments of its fully dotted qualified name.
#[derive(Debug, Clone)]
pub struct NameRef {
    pub text: String,
    pub resolved: Option<Vec<String>>,
}

impl NameRef {
    /// The resolved segments as a mathematical value.
    pub open spec fn resolved_view(self) -> Option<Seq<Seq<char>>> {
        match self.resolved {
            Some(segments) => Some(segments.deep_view()),
            None => None,
        }
    }
}

/// A type-level expression, as far as the analysis looks at it.
#[derive(Debug)]
pub enum TypeExpr {
    /// A bare name.
    Name(NameRef),
    /// A dotted attribute reference, e.g. `module.Class`.
    Attribute(NameRef),
    /// `value[slice]`, e.g. a container or a `Generic[...]` base.
    Subscript { value: NameRef, slice: Box<TypeExpr>, raw: String },
    /// A tuple of expressions, e.g. the argument list of a subscript.
    Tuple { elts: Vec<TypeExpr>, raw: String },
    /// A binary expression, e.g. the union `X | Y`.
    BinOr { left: Box<TypeExpr>, right: Box<TypeExpr>, raw: String },
    /// Anything else; only its source text is kept.
    Other { raw: String },
}

impl TypeExpr {
    /// The resolved qualified name of this expression, where the resolver
    /// can map it: only name-like expressions resolve.
    pub open spec fn resolution(self) -> Option<Seq<Seq<char>>> {
        match self {
            TypeExpr::Name(nr) => nr.resolved_view(),
            TypeExpr::Attribute(nr) => nr.resolved_view(),
            _ => None,
        }
    }

    /// The raw source text of the expression.
    pub open spec fn raw_view(self) -> Seq<char> {
        match self {
            TypeExpr::Name(nr) => nr.text@,
            TypeExpr::Attribute(nr) => nr.text@,
            TypeExpr::Subscript { raw, .. } => raw@,
            TypeExpr::Tuple { raw, .. } => raw@,
            TypeExpr::BinOr { raw, .. } => raw@,
            TypeExpr::Other { raw } => raw@,
        }
    }

    /// The raw source text of the expression.
    pub fn raw_text(&self) -> (r: &str)
        ensures
            r@ == self.raw_view(),
    {
        match self {
            TypeExpr::Name(nr) => nr.text.as_str(),
            TypeExpr::Attribute(nr) => nr.text.as_str(),
            TypeExpr::Subscript { raw, .. } => raw.as_str(),
            TypeExpr::Tuple { raw, .. } => raw.as_str(),
            TypeExpr::BinOr { raw, .. } => raw.as_str(),
            TypeExpr::Other { raw } => raw.as_str(),
        }
    }
}

/// A keyword argument of a class header, e.g. `metaclass=ABCMeta`.
#[derive(Debug)]
pub struct KeywordArg {
    pub arg: Option<String>,
    pub value: TypeExpr,
}

/// The shape of the right-hand side of a plain assignment, used to infer a
/// display type for the attribute.
#[derive(Debug, Clone, Copy, PartialEq, Eq, Structural)]
pub enum ValueShape {
    BoolOp,
    BinOp,
    UnaryOp,
    Lambda,
    DictComp,
    Dict,
    SetLit,
    SetComp,
    FString,
    StringLit,
    NoneLit,
    BoolLit,
    BytesLit,
    EllipsisLit,
    ListComp,
    List,
    TupleLit,
    NumberInt,
    NumberFloat,
    NumberComplex,
    Other,
}

/// The declared parameters of a method, names only, in declaration order.
#[derive(Debug, Clone)]
pub struct ParamsDef {
    pub posonlyargs: Vec<String>,
    pub args: Vec<String>,
    pub vararg: Option<String>,
    pub kwonlyargs: Vec<String>,
    pub kwarg: Option<String>,
}

/// A method of a class, with the semantic predicates the resolver answered
/// about its decorator list.
#[derive(Debug, Clone)]
pub struct MethodDef {
    pub name: String,
    pub is_async: bool,
    pub parameters: ParamsDef,
    /// The rendered return annotation, if the method has one.
    pub returns: Option<String>,
    pub is_static: bool,
    pub is_classmethod: bool,
    pub is_final: bool,
    pub is_overload: bool,
    pub is_override: bool,
    pub is_abstract: bool,
}

/// One statement of a class body, reduced to the shapes the extractor
/// recognizes.
#[derive(Debug)]
pub enum ClassStmt {
    /// An annotated assignment. `target` is the assigned name where the
    /// target is a simple name; `simple` is false for parenthesized or
    /// destructuring targets.
    AnnAssign { target: Option<String>, annotation_display: String, annotation: TypeExpr, simple: bool },
    /// A plain assignment; only the first target is kept, and only if it
    /// is a name.
    Assign { target: Option<String>, value_shape: ValueShape },
    /// A method definition.
    FunctionDef(MethodDef),
    /// Any other statement; it contributes no member.
    Other,
}

/// One class definition, as the semantic facade reports it.
#[derive(Debug)]
pub struct ClassDef {
    pub name: String,
    /// The raw source text of an explicit type-parameter list attached to
    /// the class header, brackets included.
    pub type_params: Option<String>,
    /// The positional base expressions of the class header.
    pub bases: Vec<TypeExpr>,
    /// The keyword arguments of the class header.
    pub keywords: Vec<KeywordArg>,
    /// The resolution of each decorator expression.
    pub decorators: Vec<NameRef>,
    /// Whether the facade reports the class as an enumeration.
    pub is_enum: bool,
    /// Whether the facade reports a `@final` decorator.
    pub is_final_decorated: bool,
    pub body: Vec<ClassStmt>,
}

/// Whether `segments` reads exactly `a.b`.
pub open spec fn segments2(segments: Seq<Seq<char>>, a: Seq<char>, b: Seq<char>) -> bool {
    segments.len() == 2 && segments[0] == a && segments[1] == b
}

/// Whether `segments` reads exactly `a.b.c`.
pub open spec fn segments3(
    segments: Seq<Seq<char>>,
    a: Seq<char>,
    b: Seq<char>,
    c: Seq<char>,
) -> bool {
    segments.len() == 3 && segments[0] == a && segments[1] == b && segments[2] == c
}

/// Compare a resolved segment list against a two-part dotted name.
pub fn segments_match2(segments: &Vec<String>, a: &str, b: &str) -> (r: bool)
    ensures
        r == segments2(segments.deep_view(), a@, b@),
{
    let r = segments.len() == 2 && crate::text::str_eq(segments[0].as_str(), a)
        && crate::text::str_eq(segments[1].as_str(), b);
    proof {
        if segments.len() == 2 {
            assert(segments.deep_view()[0] == segments@[0]@);
            assert(segments.deep_view()[1] == segments@[1]@);
        }
    }
    r
}

/// Compare a resolved segment list against a three-part dotted name.
pub fn segments_match3(segments: &Vec<String>, a: &str, b: &str, c: &str) -> (r: bool)
    ensures
        r == segments3(segments.deep_view(), a@, b@, c@),
{
    let r = segments.len() == 3 && crate::text::str_eq(segments[0].as_str(), a)
        && crate::text::str_eq(segments[1].as_str(), b) && crate::text::str_eq(
        segments[2].as_str(),
        c,
    );
    proof {
        if segments.len() == 3 {
            assert(segments.deep_view()[0] == segments@[0]@);
            assert(segments.deep_view()[1] == segments@[1]@);
            assert(segments.deep_view()[2] == segments@[2]@);
        }
    }
    r
}

} // verus!
