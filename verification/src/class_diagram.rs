//! Building a diagram from class definitions: member extraction, base
//! classification, composition detection, and rendering.

use crate::class_helpers::{last_dot_segment, last_dot_segment_spec, normalize_name_spec,
    QualifiedNameHelpers};
use crate::class_type_detector::{detect_type, detect_type_spec, is_base_abstract_or_protocol,
    stdlib_abstract_or_protocol_spec};
use crate::mermaid_renderer::{dedup_seq, lemma_dedup_seq_contains, render_diagram,
    render_diagram_spec};
use crate::parameter_generator::{params_spec, ParameterGenerator};
use crate::renderer::{Attribute, AttributeV, ClassNode, ClassNodeV, ClassType, CompositionEdge,
    CompositionEdgeV, Diagram, DiagramDirection, DiagramV, MethodSignature, MethodSignatureV,
    RelationType, RelationshipEdge, RelationshipEdgeV, Visibility};
use crate::semantic::{segments2, ClassDef, ClassStmt, MethodDef, TypeExpr, ValueShape};
use crate::text::{first_index_of, str_eq, strip_leading, strip_leading_spec, strip_trailing,
    strip_trailing_spec, trim_char, trim_char_spec};
use crate::type_analyzer::{composition_types_spec, extract_composition_types,
    extract_generic_params, generic_params_spec};
use vstd::prelude::*;

verus! {

/// The display type inferred from the literal shape of an assignment's
/// right-hand side; unrecognized shapes fall back to `Any`.
pub open spec fn value_shape_type_spec(shape: ValueShape) -> Seq<char> {
    match shape {
        ValueShape::BoolOp => "bool"@,
        ValueShape::BinOp => "int"@,
        ValueShape::UnaryOp => "int"@,
        ValueShape::Lambda => "Callable"@,
        ValueShape::DictComp => "dict"@,
        ValueShape::Dict => "dict"@,
        ValueShape::SetLit => "set"@,
        ValueShape::SetComp => "set"@,
        ValueShape::FString => "str"@,
        ValueShape::StringLit => "str"@,
        ValueShape::NoneLit => "None"@,
        ValueShape::BoolLit => "bool"@,
        ValueShape::BytesLit => "bytes"@,
        ValueShape::EllipsisLit => "..."@,
        ValueShape::ListComp => "list"@,
        ValueShape::List => "list"@,
        ValueShape::TupleLit => "tuple"@,
        ValueShape::NumberInt => "int"@,
        ValueShape::NumberFloat => "float"@,
        ValueShape::NumberComplex => "complex"@,
        ValueShape::Other => "Any"@,
    }
}

fn value_shape_type(shape: ValueShape) -> (r: &'static str)
    ensures
        r@ == value_shape_type_spec(shape),
{
    match shape {
        ValueShape::BoolOp => "bool",
        ValueShape::BinOp => "int",
        ValueShape::UnaryOp => "int",
        ValueShape::Lambda => "Callable",
        ValueShape::DictComp => "dict",
        ValueShape::Dict => "dict",
        ValueShape::SetLit => "set",
        ValueShape::SetComp => "set",
        ValueShape::FString => "str",
        ValueShape::StringLit => "str",
        ValueShape::NoneLit => "None",
        ValueShape::BoolLit => "bool",
        ValueShape::BytesLit => "bytes",
        ValueShape::EllipsisLit => "...",
        ValueShape::ListComp => "list",
        ValueShape::List => "list",
        ValueShape::TupleLit => "tuple",
        ValueShape::NumberInt => "int",
        ValueShape::NumberFloat => "float",
        ValueShape::NumberComplex => "complex",
        ValueShape::Other => "Any",
    }
}

/// The return type of a well-known magic method. This restates, in full,
/// the fixed table that `ruff_python_stdlib::typing::simple_magic_return_type`
/// implements.
pub open spec fn magic_return_spec(n: Seq<char>) -> Option<Seq<char>> {
    if n == "__str__"@ || n == "__repr__"@ || n == "__format__"@ {
        Some("str"@)
    } else if n == "__bytes__"@ {
        Some("bytes"@)
    } else if n == "__len__"@ || n == "__length_hint__"@ || n == "__int__"@ || n
        == "__index__"@ {
        Some("int"@)
    } else if n == "__float__"@ {
        Some("float"@)
    } else if n == "__complex__"@ {
        Some("complex"@)
    } else if n == "__bool__"@ || n == "__contains__"@ || n == "__instancecheck__"@ || n
        == "__subclasscheck__"@ {
        Some("bool"@)
    } else if n == "__init__"@ || n == "__del__"@ || n == "__setattr__"@ || n == "__delattr__"@
        || n == "__setitem__"@ || n == "__delitem__"@ || n == "__set__"@ {
        Some("None"@)
    } else {
        None
    }
}

/// Relies on `ruff_python_stdlib::typing::simple_magic_return_type`, whose
/// fixed table `magic_return_spec` restates clause by clause.
#[verifier::external_body]
fn simple_magic_return_type(method: &str) -> (r: Option<String>)
    ensures
        match r {
            Some(t) => magic_return_spec(method@) == Some(t@),
            None => magic_return_spec(method@) is None,
        },
{
    match ruff_python_stdlib::typing::simple_magic_return_type(method) {
        Some(t) => Some(t.to_string()),
        None => None,
    }
}

/// Whether a member or class name counts as private: it starts with an
/// underscore.
pub open spec fn leading_underscore_spec(s: Seq<char>) -> bool {
    s.len() > 0 && s[0] == '_'
}

fn has_leading_underscore(s: &str) -> (r: bool)
    ensures
        r == leading_underscore_spec(s@),
{
    s.unicode_len() > 0 && s.get_char(0) == '_'
}

/// Represents a class member (attribute or method) during processing
enum ClassMember {
    Attribute(Attribute),
    Method(MethodSignature),
}

/// Mathematical value of a [`ClassMember`].
pub ghost enum ClassMemberV {
    Attribute(AttributeV),
    Method(MethodSignatureV),
}

impl View for ClassMember {
    type V = ClassMemberV;

    closed spec fn view(&self) -> ClassMemberV {
        match self {
            ClassMember::Attribute(a) => ClassMemberV::Attribute(a@),
            ClassMember::Method(m) => ClassMemberV::Method(m@),
        }
    }
}

/// The decorator texts recorded for a method: `@final`, then
/// `@classmethod` (which wins over `@staticmethod`), then `@overload`,
/// then `@override`.
pub open spec fn method_decorators_spec(m: MethodDef) -> Seq<Seq<char>> {
    (if m.is_final {
        seq!["@final"@]
    } else {
        Seq::<Seq<char>>::empty()
    }) + (if m.is_classmethod {
        seq!["@classmethod"@]
    } else if m.is_static {
        seq!["@staticmethod"@]
    } else {
        Seq::<Seq<char>>::empty()
    }) + (if m.is_overload {
        seq!["@overload"@]
    } else {
        Seq::<Seq<char>>::empty()
    }) + (if m.is_override {
        seq!["@override"@]
    } else {
        Seq::<Seq<char>>::empty()
    })
}

/// The signature record a method definition becomes: serialized
/// parameters, the explicit return annotation or the magic-method table's
/// answer, visibility from a leading underscore, and the decorator texts.
pub open spec fn method_signature_spec(m: MethodDef) -> MethodSignatureV {
    MethodSignatureV {
        name: m.name@,
        parameters: params_spec(m.parameters),
        return_type: match m.returns {
            Some(r) => Some(r@),
            None => magic_return_spec(m.name@),
        },
        visibility: if leading_underscore_spec(m.name@) {
            Visibility::Private
        } else {
            Visibility::Public
        },
        is_static: m.is_static,
        is_abstract: m.is_abstract,
        is_async: m.is_async,
        decorators: method_decorators_spec(m),
    }
}

/// The member a class-body statement contributes, if any: a simple
/// annotated assignment or a plain assignment becomes an attribute, a
/// method definition becomes a signature, anything else is skipped.
pub open spec fn stmt_member_spec(s: ClassStmt) -> Option<ClassMemberV> {
    match s {
        ClassStmt::AnnAssign { target, annotation_display, simple, .. } => {
            if !simple {
                None
            } else {
                match target {
                    Some(t) => Some(
                        ClassMemberV::Attribute(
                            AttributeV {
                                name: t@,
                                type_annotation: annotation_display@,
                                visibility: if leading_underscore_spec(t@) {
                                    Visibility::Private
                                } else {
                                    Visibility::Public
                                },
                            },
                        ),
                    ),
                    None => None,
                }
            }
        },
        ClassStmt::Assign { target, value_shape } => match target {
            Some(t) => Some(
                ClassMemberV::Attribute(
                    AttributeV {
                        name: t@,
                        type_annotation: value_shape_type_spec(value_shape),
                        visibility: Visibility::Public,
                    },
                ),
            ),
            None => None,
        },
        ClassStmt::FunctionDef(m) => Some(ClassMemberV::Method(method_signature_spec(m))),
        ClassStmt::Other => None,
    }
}

fn clone_string_vec(v: &Vec<String>) -> (r: Vec<String>)
    ensures
        r.deep_view() == v.deep_view(),
{
    let mut out: Vec<String> = Vec::new();
    let n = v.len();
    let mut i: usize = 0;
    while i < n
        invariant
            0 <= i <= n,
            n == v.len(),
            out@.len() == i,
            forall|k: int| 0 <= k < i ==> (#[trigger] out@[k])@ == v@[k]@,
        decreases n - i,
    {
        out.push(v[i].clone());
        i = i + 1;
    }
    proof {
        assert forall|k: int| 0 <= k < n implies #[trigger] out.deep_view()[k]
            == v.deep_view()[k] by {
            assert(out.deep_view()[k] == out@[k]@);
            assert(v.deep_view()[k] == v@[k]@);
        }
        assert(out.deep_view() =~= v.deep_view());
    }
    out
}

/// Process a statement into an `Attribute` or `MethodSignature`.
fn process_stmt_to_member(stmt: &ClassStmt) -> (r: Option<ClassMember>)
    ensures
        match r {
            Some(m) => stmt_member_spec(*stmt) == Some(m@),
            None => stmt_member_spec(*stmt) is None,
        },
{
    match stmt {
        ClassStmt::AnnAssign { target, annotation_display, simple, .. } => {
            if !*simple {
                return None;
            }
            match target {
                Some(t) => Some(
                    ClassMember::Attribute(
                        Attribute {
                            name: t.clone(),
                            type_annotation: annotation_display.clone(),
                            visibility: if has_leading_underscore(t.as_str()) {
                                Visibility::Private
                            } else {
                                Visibility::Public
                            },
                        },
                    ),
                ),
                None => None,
            }
        },
        ClassStmt::Assign { target, value_shape } => match target {
            Some(t) => {
                let shape_name = value_shape_type(*value_shape);
                Some(
                    ClassMember::Attribute(
                        Attribute {
                            name: t.clone(),
                            type_annotation: shape_name.to_owned(),
                            visibility: Visibility::Public,
                        },
                    ),
                )
            },
            None => None,
        },
        ClassStmt::FunctionDef(m) => {
            let mut param_gen = ParameterGenerator::new();
            param_gen.unparse_parameters(&m.parameters);
            let params = param_gen.generate();

            let return_type = match &m.returns {
                Some(target) => Some(target.clone()),
                None => simple_magic_return_type(m.name.as_str()),
            };

            let mut decorators: Vec<String> = Vec::new();
            if m.is_final {
                decorators.push("@final".to_owned());
            }
            if m.is_classmethod {
                decorators.push("@classmethod".to_owned());
            } else if m.is_static {
                decorators.push("@staticmethod".to_owned());
            }
            if m.is_overload {
                decorators.push("@overload".to_owned());
            }
            if m.is_override {
                decorators.push("@override".to_owned());
            }
            proof {
                assert(decorators.deep_view() =~= method_decorators_spec(*m));
            }

            let sig = MethodSignature {
                name: m.name.clone(),
                parameters: params,
                return_type,
                visibility: if has_leading_underscore(m.name.as_str()) {
                    Visibility::Private
                } else {
                    Visibility::Public
                },
                is_static: m.is_static,
                is_abstract: m.is_abstract,
                is_async: m.is_async,
                decorators,
            };
            proof {
                assert(sig@ == method_signature_spec(*m));
            }
            Some(ClassMember::Method(sig))
        },
        ClassStmt::Other => None,
    }
}

/// Whether `classes` holds a class named `name` drawn as abstract or as an
/// interface.
pub open spec fn classes_have_abstract_or_interface(
    classes: Seq<ClassNodeV>,
    name: Seq<char>,
) -> bool {
    exists|i: int|
        0 <= i < classes.len() && classes[i].name == name && (classes[i].class_type
            == ClassType::Abstract || classes[i].class_type == ClassType::Interface)
}

/// The raw members of a class body, one per recognized statement, in
/// statement order.
pub open spec fn members_raw_spec(body: Seq<ClassStmt>) -> Seq<ClassMemberV>
    decreases body.len(),
{
    if body.len() == 0 {
        Seq::<ClassMemberV>::empty()
    } else {
        members_raw_spec(body.drop_last()) + (match stmt_member_spec(body.last()) {
            Some(m) => seq![m],
            None => Seq::<ClassMemberV>::empty(),
        })
    }
}

/// The members of a class body, duplicates (same name, signature and
/// flags) dropped so overload stubs yield one line.
pub open spec fn members_spec(body: Seq<ClassStmt>) -> Seq<ClassMemberV> {
    dedup_seq(members_raw_spec(body))
}

/// The attributes among a member list, in order.
pub open spec fn attrs_of(members: Seq<ClassMemberV>) -> Seq<AttributeV>
    decreases members.len(),
{
    if members.len() == 0 {
        Seq::<AttributeV>::empty()
    } else {
        attrs_of(members.drop_last()) + (match members.last() {
            ClassMemberV::Attribute(a) => seq![a],
            ClassMemberV::Method(_) => Seq::<AttributeV>::empty(),
        })
    }
}

/// The methods among a member list, in order.
pub open spec fn methods_of(members: Seq<ClassMemberV>) -> Seq<MethodSignatureV>
    decreases members.len(),
{
    if members.len() == 0 {
        Seq::<MethodSignatureV>::empty()
    } else {
        methods_of(members.drop_last()) + (match members.last() {
            ClassMemberV::Attribute(_) => Seq::<MethodSignatureV>::empty(),
            ClassMemberV::Method(m) => seq![m],
        })
    }
}

/// The parameter text of an explicit type-parameter list: the raw source
/// with the surrounding brackets stripped.
pub open spec fn explicit_params_spec(raw: Seq<char>) -> Seq<char> {
    strip_trailing_spec(strip_leading_spec(raw, '['), ']')
}

/// The first `Generic[...]` parameter text among the bases from index `i`
/// on.
pub open spec fn bases_generic_var_spec(bases: Seq<TypeExpr>, i: int) -> Option<Seq<char>>
    decreases bases.len() - i,
{
    if i < 0 || i >= bases.len() {
        None
    } else {
        match generic_params_spec(bases[i]) {
            Some(t) => Some(t),
            None => bases_generic_var_spec(bases, i + 1),
        }
    }
}

/// The type-parameter text of a class: an explicit parameter list wins,
/// else the first `Generic[...]` base supplies it.
pub open spec fn generic_var_spec(c: ClassDef) -> Option<Seq<char>> {
    match c.type_params {
        Some(raw) => Some(explicit_params_spec(raw@)),
        None => bases_generic_var_spec(c.bases@, 0),
    }
}

/// The node a class definition becomes.
pub open spec fn class_node_spec(c: ClassDef) -> ClassNodeV {
    ClassNodeV {
        name: c.name@,
        type_params: generic_var_spec(c),
        class_type: detect_type_spec(c),
        attributes: attrs_of(members_spec(c.body@)),
        methods: methods_of(members_spec(c.body@)),
    }
}

/// The display name of a base: its dotted qualified name where resolution
/// succeeded, else its raw source text; normalized.
pub open spec fn base_name_spec(base: TypeExpr) -> Seq<char> {
    match base.resolution() {
        Some(segments) => normalize_name_spec(crate::class_helpers::join_dotted(segments)),
        None => normalize_name_spec(base.raw_view()),
    }
}

/// `s` up to (but excluding) its first `[`.
pub open spec fn before_bracket_spec(s: Seq<char>) -> Seq<char> {
    match first_index_of(s, '[') {
        Some(i) => s.take(i),
        None => s,
    }
}

/// The name a base is drawn under: its display name with any generic
/// specialization dropped and disambiguating backticks removed.
pub open spec fn base_display_spec(base: TypeExpr) -> Seq<char> {
    trim_char_spec(before_bracket_spec(base_name_spec(base)), '`')
}

/// Bases that draw no arrow: generic-parameter carriers, `object`, the
/// ABC markers and the Protocol types.
pub open spec fn skip_base_spec(base: TypeExpr) -> bool {
    generic_params_spec(base) is Some || (base.resolution() matches Some(segments) && (
    segments2(segments, "typing"@, "Generic"@) || segments2(segments, ""@, "object"@)
        || segments2(segments, "builtins"@, "object"@) || segments2(segments, "abc"@, "ABC"@)
        || segments2(segments, "abc"@, "ABCMeta"@) || segments2(
        segments,
        "typing"@,
        "Protocol"@,
    ) || segments2(segments, "typing_extensions"@, "Protocol"@)))
}

/// The relationship a base contributes, drawn against the classes known
/// when the class was added: none for enumerations and skipped bases, an
/// implementation edge where the base is abstract or an interface, an
/// inheritance edge otherwise.
pub open spec fn base_edge_spec(
    class_name: Seq<char>,
    class_is_enum: bool,
    base: TypeExpr,
    classes: Seq<ClassNodeV>,
) -> Option<RelationshipEdgeV> {
    if class_is_enum || skip_base_spec(base) {
        None
    } else {
        Some(
            RelationshipEdgeV {
                from: class_name,
                to: base_display_spec(base),
                relation_type: if classes_have_abstract_or_interface(
                    classes,
                    base_display_spec(base),
                ) || stdlib_abstract_or_protocol_spec(base) {
                    RelationType::Implementation
                } else {
                    RelationType::Inheritance
                },
            },
        )
    }
}

/// The relationship edges of all bases, in base order.
pub open spec fn rel_edges_spec(
    class_name: Seq<char>,
    class_is_enum: bool,
    bases: Seq<TypeExpr>,
    classes: Seq<ClassNodeV>,
) -> Seq<RelationshipEdgeV>
    decreases bases.len(),
{
    if bases.len() == 0 {
        Seq::<RelationshipEdgeV>::empty()
    } else {
        rel_edges_spec(class_name, class_is_enum, bases.drop_last(), classes) + (
        match base_edge_spec(class_name, class_is_enum, bases.last(), classes) {
            Some(e) => seq![e],
            None => Seq::<RelationshipEdgeV>::empty(),
        })
    }
}

/// The composition candidates of a class body: the extracted types of
/// every annotated assignment, in order.
pub open spec fn comp_types_raw_spec(body: Seq<ClassStmt>) -> Seq<Seq<char>>
    decreases body.len(),
{
    if body.len() == 0 {
        Seq::<Seq<char>>::empty()
    } else {
        comp_types_raw_spec(body.drop_last()) + (match body.last() {
            ClassStmt::AnnAssign { annotation, .. } => composition_types_spec(annotation),
            _ => Seq::<Seq<char>>::empty(),
        })
    }
}

/// The composition type names of a class body, deduplicated in first-seen
/// order.
pub open spec fn comp_names_spec(body: Seq<ClassStmt>) -> Seq<Seq<char>> {
    dedup_seq(comp_types_raw_spec(body))
}

/// The composition edges of a class: one per detected type, the contained
/// side shortened to the last dotted segment.
pub open spec fn comp_edges_spec(class_name: Seq<char>, names: Seq<Seq<char>>) -> Seq<
    CompositionEdgeV,
>
    decreases names.len(),
{
    if names.len() == 0 {
        Seq::<CompositionEdgeV>::empty()
    } else {
        comp_edges_spec(class_name, names.drop_last()).push(
            CompositionEdgeV {
                container: class_name,
                contained: last_dot_segment_spec(names.last()),
            },
        )
    }
}

fn attribute_eq(a: &Attribute, b: &Attribute) -> (r: bool)
    ensures
        r == (a@ == b@),
{
    let r = str_eq(a.name.as_str(), b.name.as_str()) && str_eq(
        a.type_annotation.as_str(),
        b.type_annotation.as_str(),
    ) && a.visibility == b.visibility;
    proof {
        if a@.name == b@.name && a@.type_annotation == b@.type_annotation && a@.visibility
            == b@.visibility {
            assert(a@ == b@);
        }
    }
    r
}

fn string_vec_eq(a: &Vec<String>, b: &Vec<String>) -> (r: bool)
    ensures
        r == (a.deep_view() == b.deep_view()),
{
    if a.len() != b.len() {
        proof {
            assert(a.deep_view().len() == a@.len());
            assert(b.deep_view().len() == b@.len());
        }
        return false;
    }
    let n = a.len();
    let mut i: usize = 0;
    while i < n
        invariant
            0 <= i <= n,
            n == a.len(),
            n == b.len(),
            forall|j: int| 0 <= j < i ==> a.deep_view()[j] == b.deep_view()[j],
        decreases n - i,
    {
        if !str_eq(a[i].as_str(), b[i].as_str()) {
            proof {
                assert(a.deep_view()[i as int] == a@[i as int]@);
                assert(b.deep_view()[i as int] == b@[i as int]@);
            }
            return false;
        }
        proof {
            assert(a.deep_view()[i as int] == a@[i as int]@);
            assert(b.deep_view()[i as int] == b@[i as int]@);
        }
        i = i + 1;
    }
    proof {
        assert(a.deep_view() =~= b.deep_view());
    }
    true
}

fn method_eq(a: &MethodSignature, b: &MethodSignature) -> (r: bool)
    ensures
        r == (a@ == b@),
{
    let rt_eq = match (&a.return_type, &b.return_type) {
        (Some(x), Some(y)) => str_eq(x.as_str(), y.as_str()),
        (None, None) => true,
        _ => false,
    };
    let r = str_eq(a.name.as_str(), b.name.as_str()) && str_eq(
        a.parameters.as_str(),
        b.parameters.as_str(),
    ) && rt_eq && a.visibility == b.visibility && a.is_static == b.is_static && a.is_abstract
        == b.is_abstract && a.is_async == b.is_async && string_vec_eq(
        &a.decorators,
        &b.decorators,
    );
    proof {
        if a@.name == b@.name && a@.parameters == b@.parameters && a@.return_type
            == b@.return_type && a@.visibility == b@.visibility && a@.is_static == b@.is_static
            && a@.is_abstract == b@.is_abstract && a@.is_async == b@.is_async && a@.decorators
            == b@.decorators {
            assert(a@ == b@);
        }
    }
    r
}

fn member_eq(a: &ClassMember, b: &ClassMember) -> (r: bool)
    ensures
        r == (a@ == b@),
{
    match (a, b) {
        (ClassMember::Attribute(x), ClassMember::Attribute(y)) => attribute_eq(x, y),
        (ClassMember::Method(x), ClassMember::Method(y)) => method_eq(x, y),
        _ => false,
    }
}

fn contains_member(v: &Vec<ClassMember>, m: &ClassMember) -> (r: bool)
    ensures
        r == v@.map_values(|x: ClassMember| x@).contains(m@),
{
    let ghost vv = v@.map_values(|x: ClassMember| x@);
    let n = v.len();
    let mut i: usize = 0;
    while i < n
        invariant
            0 <= i <= n,
            n == v.len(),
            vv == v@.map_values(|x: ClassMember| x@),
            forall|j: int| 0 <= j < i ==> vv[j] != m@,
        decreases n - i,
    {
        if member_eq(&v[i], m) {
            proof {
                assert(vv[i as int] == m@);
            }
            return true;
        }
        i = i + 1;
    }
    false
}

fn contains_string(v: &Vec<String>, s: &str) -> (r: bool)
    ensures
        r == v.deep_view().contains(s@),
{
    let n = v.len();
    let mut i: usize = 0;
    while i < n
        invariant
            0 <= i <= n,
            n == v.len(),
            forall|j: int| 0 <= j < i ==> v.deep_view()[j] != s@,
        decreases n - i,
    {
        if str_eq(v[i].as_str(), s) {
            proof {
                assert(v.deep_view()[i as int] == s@);
            }
            return true;
        }
        i = i + 1;
    }
    false
}

fn clone_attribute(a: &Attribute) -> (r: Attribute)
    ensures
        r@ == a@,
{
    Attribute {
        name: a.name.clone(),
        type_annotation: a.type_annotation.clone(),
        visibility: a.visibility,
    }
}

fn clone_method(m: &MethodSignature) -> (r: MethodSignature)
    ensures
        r@ == m@,
{
    let r = MethodSignature {
        name: m.name.clone(),
        parameters: m.parameters.clone(),
        return_type: match &m.return_type {
            Some(t) => Some(t.clone()),
            None => None,
        },
        visibility: m.visibility,
        is_static: m.is_static,
        is_abstract: m.is_abstract,
        is_async: m.is_async,
        decorators: clone_string_vec(&m.decorators),
    };
    proof {
        assert(r@ == m@);
    }
    r
}

/// How a base figures in the diagram: skipped, or drawn as an arrow to a
/// named target.
enum BaseKind {
    Skip,
    InheritanceTarget { name: String, is_abstract_or_protocol: bool },
}

/// Mathematical value of a [`ClassDiagram`].
pub ghost struct ClassDiagramV {
    pub diagram: DiagramV,
    pub path: Seq<char>,
    pub direction: DiagramDirection,
}

/// A diagram under construction for one unit of work, with the title path
/// it will render under.
pub struct ClassDiagram {
    diagram: Diagram,
    pub path: String,
    pub direction: DiagramDirection,
}

impl View for ClassDiagram {
    type V = ClassDiagramV;

    closed spec fn view(&self) -> ClassDiagramV {
        ClassDiagramV { diagram: self.diagram@, path: self.path@, direction: self.direction }
    }
}

impl Default for ClassDiagram {
    fn default() -> (r: Self)
        ensures
            r@.diagram.is_empty(),
            r@.path == Seq::<char>::empty(),
            r@.direction == DiagramDirection::TB,
    {
        ClassDiagram::new()
    }
}

impl ClassDiagram {
    pub fn new() -> (r: Self)
        ensures
            r@.diagram.is_empty(),
            r@.diagram.classes == Seq::<ClassNodeV>::empty(),
            r@.diagram.relationships == Seq::<RelationshipEdgeV>::empty(),
            r@.diagram.compositions == Seq::<CompositionEdgeV>::empty(),
            r@.path == Seq::<char>::empty(),
            r@.direction == DiagramDirection::TB,
    {
        ClassDiagram {
            diagram: Diagram::new(),
            path: String::new(),
            direction: DiagramDirection::TB,
        }
    }

    pub fn is_empty(&self) -> (r: bool)
        ensures
            r == self@.diagram.is_empty(),
    {
        self.diagram.is_empty()
    }

    /// Render the collected diagram, with the path as title when one is
    /// set; an empty diagram renders as nothing.
    pub fn render(&self) -> (r: Option<String>)
        ensures
            match r {
                Some(text) => render_diagram_spec(
                    self@.diagram,
                    if self@.path.len() == 0 {
                        None
                    } else {
                        Some(self@.path)
                    },
                    self@.direction,
                ) == Some(text@),
                None => render_diagram_spec(
                    self@.diagram,
                    if self@.path.len() == 0 {
                        None
                    } else {
                        Some(self@.path)
                    },
                    self@.direction,
                ) is None,
            },
    {
        if self.is_empty() {
            proof {
                assert(self@.diagram.is_empty());
            }
            return None;
        }
        let title = if self.path.as_str().unicode_len() == 0 {
            None
        } else {
            Some(self.path.as_str())
        };
        render_diagram(&self.diagram, title, self.direction)
    }

    /// Classify one base of a (non-enumeration) class.
    fn classify_base(&self, base: &TypeExpr, class_is_enum: bool) -> (r: BaseKind)
        ensures
            match r {
                BaseKind::Skip => class_is_enum || skip_base_spec(*base),
                BaseKind::InheritanceTarget { name, is_abstract_or_protocol } => !class_is_enum
                    && !skip_base_spec(*base) && name@ == base_display_spec(*base) && (
                is_abstract_or_protocol == (classes_have_abstract_or_interface(
                    self@.diagram.classes,
                    base_display_spec(*base),
                ) || stdlib_abstract_or_protocol_spec(*base))),
            },
    {
        if class_is_enum {
            return BaseKind::Skip;
        }
        if extract_generic_params(base).is_some() {
            return BaseKind::Skip;
        }
        let skip = match base.resolution_ref() {
            Some(segments) => crate::semantic::segments_match2(segments, "typing", "Generic")
                || crate::semantic::segments_match2(segments, "", "object")
                || crate::semantic::segments_match2(segments, "builtins", "object")
                || crate::semantic::segments_match2(segments, "abc", "ABC")
                || crate::semantic::segments_match2(segments, "abc", "ABCMeta")
                || crate::semantic::segments_match2(segments, "typing", "Protocol")
                || crate::semantic::segments_match2(segments, "typing_extensions", "Protocol"),
            None => false,
        };
        if skip {
            return BaseKind::Skip;
        }
        let base_name = match base.resolution_ref() {
            Some(segments) => {
                let joined = crate::class_helpers::join_segments(segments);
                joined.as_str().normalize_name()
            },
            None => base.raw_text().normalize_name(),
        };
        let len = base_name.as_str().unicode_len();
        let cut = match crate::text::find_char(base_name.as_str(), '[') {
            Some(i) => base_name.as_str().substring_char(0, i).to_owned(),
            None => base_name.as_str().to_owned(),
        };
        proof {
            assert(base_name@.subrange(0, base_name@.len() as int) =~= base_name@);
            assert(cut@ == before_bracket_spec(base_name_spec(*base)));
        }
        let base_display = trim_char(cut.as_str(), '`');
        let base_is_abstract_or_protocol = self.diagram.is_abstract_or_interface(
            base_display.as_str(),
        ) || is_base_abstract_or_protocol(base);
        BaseKind::InheritanceTarget {
            name: base_display,
            is_abstract_or_protocol: base_is_abstract_or_protocol,
        }
    }

    /// Add one class definition: its node, its inheritance and
    /// implementation relationships, and its composition edges.
    #[verifier::loop_isolation(false)]
    #[verifier::rlimit(100)]
    pub fn add_class(&mut self, class: &ClassDef)
        ensures
            final (self)@.path == old(self)@.path,
            final (self)@.direction == old(self)@.direction,
            final (self)@.diagram.classes == old(self)@.diagram.classes.push(
                class_node_spec(*class),
            ),
            final (self)@.diagram.relationships == old(self)@.diagram.relationships
                + rel_edges_spec(
                class.name@,
                class.is_enum,
                class.bases@,
                old(self)@.diagram.classes.push(class_node_spec(*class)),
            ),
            final (self)@.diagram.compositions == old(self)@.diagram.compositions
                + comp_edges_spec(class.name@, comp_names_spec(class.body@)),
    {
        let class_name = class.name.clone();

        // Find generic type parameters - either from an explicit
        // parameter list or a Generic[...] base.
        let generic_type_var: Option<String> = match &class.type_params {
            Some(raw) => {
                let stripped = strip_leading(raw.as_str(), '[');
                Some(strip_trailing(stripped.as_str(), ']'))
            },
            None => {
                let nb = class.bases.len();
                let mut k: usize = 0;
                let mut found: Option<String> = None;
                while k < nb && found.is_none()
                    invariant
                        0 <= k <= nb,
                        found is None ==> bases_generic_var_spec(class.bases@, 0)
                            == bases_generic_var_spec(class.bases@, k as int),
                        match found {
                            Some(t) => bases_generic_var_spec(class.bases@, 0) == Some(t@),
                            None => true,
                        },
                    decreases nb - k, (if found is None {
                        1int
                    } else {
                        0int
                    }),
                {
                    match extract_generic_params(&class.bases[k]) {
                        Some(t) => {
                            found = Some(t);
                        },
                        None => {
                            k = k + 1;
                        },
                    }
                }
                found
            },
        };

        // Detect composition types from annotated attributes, in
        // first-seen order, without repetitions.
        let mut composition_types: Vec<String> = Vec::new();
        let nstmt = class.body.len();
        let mut si: usize = 0;
        proof {
            assert(composition_types.deep_view() =~= dedup_seq(
                comp_types_raw_spec(class.body@.take(0)),
            ));
        }
        while si < nstmt
            invariant
                0 <= si <= nstmt,
                composition_types.deep_view() == dedup_seq(
                    comp_types_raw_spec(class.body@.take(si as int)),
                ),
            decreases nstmt - si,
        {
            let ghost prefix_raw = comp_types_raw_spec(class.body@.take(si as int));
            proof {
                let step = class.body@.take(si + 1);
                assert(step.drop_last() =~= class.body@.take(si as int));
                assert(step.last() == class.body@[si as int]);
            }
            match &class.body[si] {
                ClassStmt::AnnAssign { annotation, .. } => {
                    let extracted = extract_composition_types(annotation);
                    let ghost exv = extracted.deep_view();
                    let ne = extracted.len();
                    let mut ei: usize = 0;
                    proof {
                        assert(prefix_raw + exv.take(0) =~= prefix_raw);
                    }
                    while ei < ne
                        invariant
                            0 <= ei <= ne,
                            ne == extracted.len(),
                            extracted.deep_view() == exv,
                            composition_types.deep_view() == dedup_seq(
                                prefix_raw + exv.take(ei as int),
                            ),
                        decreases ne - ei,
                    {
                        let ghost cur_raw = prefix_raw + exv.take(ei as int);
                        proof {
                            assert(exv[ei as int] == extracted@[ei as int]@);
                            assert((prefix_raw + exv.take(ei + 1)).drop_last() =~= cur_raw);
                            assert((prefix_raw + exv.take(ei + 1)).last() == exv[ei as int]);
                            lemma_dedup_seq_contains(cur_raw);
                        }
                        let dup = contains_string(&composition_types, extracted[ei].as_str());
                        if !dup {
                            composition_types.push(extracted[ei].clone());
                            proof {
                                assert(composition_types.deep_view() =~= dedup_seq(
                                    cur_raw,
                                ).push(exv[ei as int]));
                                assert(composition_types.deep_view() =~= dedup_seq(
                                    prefix_raw + exv.take(ei + 1),
                                ));
                            }
                        } else {
                            proof {
                                assert(composition_types.deep_view() =~= dedup_seq(
                                    prefix_raw + exv.take(ei + 1),
                                ));
                            }
                        }
                        ei = ei + 1;
                    }
                    proof {
                        assert(exv.take(ne as int) =~= exv);
                        assert(prefix_raw + exv =~= comp_types_raw_spec(
                            class.body@.take(si + 1),
                        ));
                    }
                },
                _ => {
                    proof {
                        assert(comp_types_raw_spec(class.body@.take(si + 1)) =~= prefix_raw);
                    }
                },
            }
            si = si + 1;
        }
        proof {
            assert(class.body@.take(nstmt as int) =~= class.body@);
        }

        // Collect members, dropping exact duplicates.
        let mut members: Vec<ClassMember> = Vec::new();
        let mut mi: usize = 0;
        proof {
            assert(members@.map_values(|m: ClassMember| m@) =~= dedup_seq(
                members_raw_spec(class.body@.take(0)),
            ));
        }
        while mi < nstmt
            invariant
                0 <= mi <= nstmt,
                members@.map_values(|m: ClassMember| m@) == dedup_seq(
                    members_raw_spec(class.body@.take(mi as int)),
                ),
            decreases nstmt - mi,
        {
            let ghost prefix_raw = members_raw_spec(class.body@.take(mi as int));
            proof {
                let step = class.body@.take(mi + 1);
                assert(step.drop_last() =~= class.body@.take(mi as int));
                assert(step.last() == class.body@[mi as int]);
                lemma_dedup_seq_contains(prefix_raw);
            }
            match process_stmt_to_member(&class.body[mi]) {
                Some(member) => {
                    proof {
                        assert((prefix_raw + seq![member@]).drop_last() =~= prefix_raw);
                        assert((prefix_raw + seq![member@]).last() == member@);
                        assert(members_raw_spec(class.body@.take(mi + 1)) =~= prefix_raw
                            + seq![member@]);
                    }
                    let dup = contains_member(&members, &member);
                    if !dup {
                        members.push(member);
                        proof {
                            assert(members@.map_values(|m: ClassMember| m@) =~= dedup_seq(
                                prefix_raw,
                            ).push(members_raw_spec(class.body@.take(mi + 1)).last()));
                            assert(members@.map_values(|m: ClassMember| m@) =~= dedup_seq(
                                members_raw_spec(class.body@.take(mi + 1)),
                            ));
                        }
                    } else {
                        proof {
                            assert(members@.map_values(|m: ClassMember| m@) =~= dedup_seq(
                                members_raw_spec(class.body@.take(mi + 1)),
                            ));
                        }
                    }
                },
                None => {
                    proof {
                        assert(members_raw_spec(class.body@.take(mi + 1)) =~= prefix_raw);
                    }
                },
            }
            mi = mi + 1;
        }
        let ghost mseq = members@.map_values(|m: ClassMember| m@);
        proof {
            assert(class.body@.take(nstmt as int) =~= class.body@);
            assert(mseq == members_spec(class.body@));
        }

        let class_type = detect_type(class);
        let class_is_enum = class.is_enum;

        // Split members into attributes and methods.
        let mut attributes: Vec<Attribute> = Vec::new();
        let mut methods: Vec<MethodSignature> = Vec::new();
        let nmem = members.len();
        let mut j: usize = 0;
        proof {
            assert(attributes@.map_values(|a: Attribute| a@) =~= attrs_of(mseq.take(0)));
            assert(methods@.map_values(|m: MethodSignature| m@) =~= methods_of(mseq.take(0)));
        }
        while j < nmem
            invariant
                0 <= j <= nmem,
                attributes@.map_values(|a: Attribute| a@) == attrs_of(mseq.take(j as int)),
                methods@.map_values(|m: MethodSignature| m@) == methods_of(mseq.take(j as int)),
            decreases nmem - j,
        {
            proof {
                let step = mseq.take(j + 1);
                assert(step.drop_last() =~= mseq.take(j as int));
                assert(step.last() == mseq[j as int]);
                assert(mseq[j as int] == members@[j as int]@);
            }
            match &members[j] {
                ClassMember::Attribute(attr) => {
                    attributes.push(clone_attribute(attr));
                    proof {
                        assert(attributes@.map_values(|a: Attribute| a@) =~= attrs_of(
                            mseq.take(j + 1),
                        ));
                        assert(methods@.map_values(|m: MethodSignature| m@) =~= methods_of(
                            mseq.take(j + 1),
                        ));
                    }
                },
                ClassMember::Method(method) => {
                    methods.push(clone_method(method));
                    proof {
                        assert(attributes@.map_values(|a: Attribute| a@) =~= attrs_of(
                            mseq.take(j + 1),
                        ));
                        assert(methods@.map_values(|m: MethodSignature| m@) =~= methods_of(
                            mseq.take(j + 1),
                        ));
                    }
                },
            }
            j = j + 1;
        }
        proof {
            assert(mseq.take(nmem as int) =~= mseq);
        }

        let class_node = ClassNode {
            name: class_name.clone(),
            type_params: generic_type_var,
            class_type,
            attributes,
            methods,
        };
        proof {
            assert(class_node@ == class_node_spec(*class));
        }
        self.diagram.add_class(class_node);
        let ghost classes_now = self@.diagram.classes;

        // Handle inheritance relationships.
        let ghost rels0 = self@.diagram.relationships;
        let nb = class.bases.len();
        let mut bi: usize = 0;
        proof {
            assert(rels0 + rel_edges_spec(
                class.name@,
                class_is_enum,
                class.bases@.take(0),
                classes_now,
            ) =~= rels0);
        }
        while bi < nb
            invariant
                0 <= bi <= nb,
                self@.diagram.classes == classes_now,
                self@.diagram.compositions == old(self)@.diagram.compositions,
                self@.path == old(self)@.path,
                self@.direction == old(self)@.direction,
                self@.diagram.relationships == rels0 + rel_edges_spec(
                    class.name@,
                    class_is_enum,
                    class.bases@.take(bi as int),
                    classes_now,
                ),
            decreases nb - bi,
        {
            proof {
                let step = class.bases@.take(bi + 1);
                assert(step.drop_last() =~= class.bases@.take(bi as int));
                assert(step.last() == class.bases@[bi as int]);
            }
            match self.classify_base(&class.bases[bi], class_is_enum) {
                BaseKind::Skip => {
                    proof {
                        assert(self@.diagram.relationships =~= rels0 + rel_edges_spec(
                            class.name@,
                            class_is_enum,
                            class.bases@.take(bi + 1),
                            classes_now,
                        ));
                    }
                },
                BaseKind::InheritanceTarget { name, is_abstract_or_protocol } => {
                    let rel = RelationshipEdge {
                        from: class_name.clone(),
                        to: name,
                        relation_type: if is_abstract_or_protocol {
                            RelationType::Implementation
                        } else {
                            RelationType::Inheritance
                        },
                    };
                    self.diagram.add_relationship(rel);
                    proof {
                        assert(self@.diagram.relationships =~= rels0 + rel_edges_spec(
                            class.name@,
                            class_is_enum,
                            class.bases@.take(bi + 1),
                            classes_now,
                        ));
                    }
                },
            }
            bi = bi + 1;
        }
        proof {
            assert(class.bases@.take(nb as int) =~= class.bases@);
        }

        // Add composition relationships.
        let ghost comps0 = self@.diagram.compositions;
        let ghost cnames = composition_types.deep_view();
        let nct = composition_types.len();
        let mut ci: usize = 0;
        proof {
            assert(comps0 + comp_edges_spec(class.name@, cnames.take(0)) =~= comps0);
        }
        while ci < nct
            invariant
                0 <= ci <= nct,
                self@.diagram.classes == classes_now,
                self@.path == old(self)@.path,
                self@.direction == old(self)@.direction,
                self@.diagram.relationships == rels0 + rel_edges_spec(
                    class.name@,
                    class_is_enum,
                    class.bases@,
                    classes_now,
                ),
                self@.diagram.compositions == comps0 + comp_edges_spec(
                    class.name@,
                    cnames.take(ci as int),
                ),
            decreases nct - ci,
        {
            proof {
                let step = cnames.take(ci + 1);
                assert(step.drop_last() =~= cnames.take(ci as int));
                assert(step.last() == cnames[ci as int]);
                assert(cnames[ci as int] == composition_types@[ci as int]@);
            }
            let comp_display = last_dot_segment(composition_types[ci].as_str());
            let comp = CompositionEdge { container: class_name.clone(), contained: comp_display };
            self.diagram.add_composition(comp);
            proof {
                assert(self@.diagram.compositions =~= comps0 + comp_edges_spec(
                    class.name@,
                    cnames.take(ci + 1),
                ));
            }
            ci = ci + 1;
        }
        proof {
            assert(cnames.take(nct as int) =~= cnames);
        }
    }
}

} // verus!
