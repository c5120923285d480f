//! Type analysis: extracting composition candidates and generic type
//! parameters from annotation and base expressions.

use crate::class_helpers::join_dotted;
use crate::semantic::{segments2, NameRef, TypeExpr};
use crate::text::{first_index_of, last_index_of, str_eq, trim_spec};
use vstd::prelude::*;

verus! {

/// Built-in scalar and container type names that never count as a
/// composition relationship.
pub open spec fn is_builtin_type_spec(n: Seq<char>) -> bool {
    n == "int"@ || n == "str"@ || n == "float"@ || n == "bool"@ || n == "bytes"@ || n == "dict"@
        || n == "list"@ || n == "tuple"@ || n == "set"@ || n == "None"@
}

/// Whether `name` is one of the built-in scalar/container type names.
pub fn is_builtin_type(name: &str) -> (r: bool)
    ensures
        r == is_builtin_type_spec(name@),
{
    str_eq(name, "int") || str_eq(name, "str") || str_eq(name, "float") || str_eq(name, "bool")
        || str_eq(name, "bytes") || str_eq(name, "dict") || str_eq(name, "list") || str_eq(
        name,
        "tuple",
    ) || str_eq(name, "set") || str_eq(name, "None")
}

/// What a single name contributes to composition detection: nothing for a
/// built-in or a name living in the builtins/typing namespace, its dotted
/// qualified name where resolution succeeded, its own text otherwise.
pub open spec fn eligible_name_spec(nr: NameRef) -> Seq<Seq<char>> {
    if is_builtin_type_spec(nr.text@) {
        Seq::<Seq<char>>::empty()
    } else {
        match nr.resolved_view() {
            Some(segments) => if segments.len() == 0 {
                Seq::<Seq<char>>::empty()
            } else if segments[0] == "builtins"@ || segments[0] == "typing"@ || segments[0]
                == ""@ {
                Seq::<Seq<char>>::empty()
            } else {
                seq![join_dotted(segments)]
            },
            None => seq![nr.text@],
        }
    }
}

/// The type names an annotation contributes to composition detection: a
/// bare name yields itself (see `eligible_name_spec`), a subscript recurses
/// into a name or tuple argument, a binary `or` union recurses into both
/// operands, anything else yields nothing.
pub open spec fn composition_types_spec(e: TypeExpr) -> Seq<Seq<char>>
    decreases e,
{
    match e {
        TypeExpr::Name(nr) => eligible_name_spec(nr),
        TypeExpr::Subscript { slice, .. } => match *slice {
            TypeExpr::Name(_) => composition_types_spec(*slice),
            TypeExpr::Tuple { elts, .. } => composition_types_tuple_spec(elts@),
            _ => Seq::<Seq<char>>::empty(),
        },
        TypeExpr::BinOr { left, right, .. } => composition_types_spec(*left)
            + composition_types_spec(*right),
        _ => Seq::<Seq<char>>::empty(),
    }
}

/// The contributions of the elements of a tuple, in order.
pub open spec fn composition_types_tuple_spec(elts: Seq<TypeExpr>) -> Seq<Seq<char>>
    decreases elts, elts.len(),
{
    if elts.len() == 0 {
        Seq::<Seq<char>>::empty()
    } else {
        composition_types_spec(elts[0]) + composition_types_tuple_spec(elts.skip(1))
    }
}

fn eligible_name(nr: &NameRef) -> (r: Vec<String>)
    ensures
        r.deep_view() == eligible_name_spec(*nr),
{
    let mut out: Vec<String> = Vec::new();
    if is_builtin_type(nr.text.as_str()) {
        proof {
            assert(out.deep_view() =~= eligible_name_spec(*nr));
        }
        return out;
    }
    match &nr.resolved {
        Some(segments) => {
            if segments.len() == 0 || str_eq(segments[0].as_str(), "builtins") || str_eq(
                segments[0].as_str(),
                "typing",
            ) || str_eq(segments[0].as_str(), "") {
                proof {
                    if segments@.len() > 0 {
                        assert(segments.deep_view()[0] == segments@[0]@);
                    }
                    assert(out.deep_view() =~= eligible_name_spec(*nr));
                }
                return out;
            }
            proof {
                assert(segments.deep_view()[0] == segments@[0]@);
            }
            let joined = crate::class_helpers::join_segments(segments);
            out.push(joined);
            proof {
                assert(out.deep_view() =~= eligible_name_spec(*nr));
            }
            out
        },
        None => {
            out.push(nr.text.clone());
            proof {
                assert(out.deep_view() =~= eligible_name_spec(*nr));
            }
            out
        },
    }
}

/// Extract type names from annotations for composition relationship
/// detection. Returns zero or more type names that represent potential
/// compositions (non-builtin, non-typing types).
#[verifier::loop_isolation(false)]
pub fn extract_composition_types(annotation: &TypeExpr) -> (r: Vec<String>)
    ensures
        r.deep_view() == composition_types_spec(*annotation),
    decreases *annotation,
{
    match annotation {
        TypeExpr::Name(nr) => eligible_name(nr),
        TypeExpr::Subscript { slice, .. } => {
            match &**slice {
                TypeExpr::Name(_) => extract_composition_types(slice),
                TypeExpr::Tuple { elts, .. } => {
                    let mut out: Vec<String> = Vec::new();
                    let n = elts.len();
                    let mut i: usize = 0;
                    proof {
                        assert(elts@.skip(0) =~= elts@);
                        assert(out.deep_view() =~= Seq::<Seq<char>>::empty());
                        assert(composition_types_tuple_spec(elts@.take(0)) =~= Seq::<
                            Seq<char>,
                        >::empty());
                    }
                    while i < n
                        invariant
                            0 <= i <= n,
                            n == elts.len(),
                            out.deep_view() + composition_types_tuple_spec(elts@.skip(i as int))
                                == composition_types_tuple_spec(elts@),
                        decreases n - i,
                    {
                        proof {
                            assert(decreases_to!(*annotation => **slice));
                            assert(decreases_to!(**slice => *elts));
                            assert(decreases_to!(*elts => elts@));
                            assert(decreases_to!(elts@ => elts@[i as int]));
                            assert(decreases_to!(*annotation => elts@[i as int]));
                        }
                        let mut part = extract_composition_types(&elts[i]);
                        let ghost out_before = out.deep_view();
                        let ghost part_v = part.deep_view();
                        out.append(&mut part);
                        proof {
                            assert(out.deep_view() =~= out_before + part_v);
                            assert(elts@.skip(i as int)[0] == elts@[i as int]);
                            assert(elts@.skip(i as int).skip(1) =~= elts@.skip(i + 1));
                            assert(composition_types_tuple_spec(elts@.skip(i as int))
                                == composition_types_spec(elts@[i as int])
                                + composition_types_tuple_spec(elts@.skip(i + 1)));
                            assert((out_before + part_v) + composition_types_tuple_spec(
                                elts@.skip(i + 1),
                            ) =~= out_before + (part_v + composition_types_tuple_spec(
                                elts@.skip(i + 1),
                            )));
                        }
                        i = i + 1;
                    }
                    proof {
                        assert(elts@.skip(n as int) =~= Seq::<TypeExpr>::empty());
                        assert(composition_types_tuple_spec(elts@.skip(n as int)) =~= Seq::<
                            Seq<char>,
                        >::empty());
                        assert(out.deep_view() + Seq::<Seq<char>>::empty() =~= out.deep_view());
                    }
                    out
                },
                _ => {
                    let out: Vec<String> = Vec::new();
                    proof {
                        assert(out.deep_view() =~= Seq::<Seq<char>>::empty());
                    }
                    out
                },
            }
        },
        TypeExpr::BinOr { left, right, .. } => {
            let mut out = extract_composition_types(left);
            let mut rhs = extract_composition_types(right);
            let ghost lv = out.deep_view();
            let ghost rv = rhs.deep_view();
            out.append(&mut rhs);
            proof {
                assert(out.deep_view() =~= lv + rv);
            }
            out
        },
        _ => {
            let out: Vec<String> = Vec::new();
            proof {
                assert(out.deep_view() =~= Seq::<Seq<char>>::empty());
            }
            out
        },
    }
}

/// Whether a resolution names the `Generic` marker type.
pub open spec fn is_generic_base_spec(r: Option<Seq<Seq<char>>>) -> bool {
    match r {
        Some(segments) => segments2(segments, "typing"@, "Generic"@) || segments2(
            segments,
            "typing_extensions"@,
            "Generic"@,
        ),
        None => false,
    }
}

/// Check if a qualified name represents a Generic base class.
pub fn is_generic_base(segments: &Vec<String>) -> (r: bool)
    ensures
        r == is_generic_base_spec(Some(segments.deep_view())),
{
    crate::semantic::segments_match2(segments, "typing", "Generic") || crate::semantic::
    segments_match2(segments, "typing_extensions", "Generic")
}

/// The text between the first `[` and the last `]` of `raw`, trimmed; what
/// an explicit `Generic[...]` base carries as its parameter text.
pub open spec fn bracket_inner_spec(raw: Seq<char>) -> Option<Seq<char>> {
    match first_index_of(raw, '[') {
        Some(start) => match last_index_of(raw, ']') {
            Some(end) => if start + 1 < end {
                Some(trim_spec(raw.subrange(start + 1, end)))
            } else {
                None
            },
            None => None,
        },
        None => None,
    }
}

/// What generic-parameter extraction yields for a base expression: the
/// bracketed text of a subscript whose value resolves to the `Generic`
/// marker, nothing otherwise.
pub open spec fn generic_params_spec(base: TypeExpr) -> Option<Seq<char>> {
    match base {
        TypeExpr::Subscript { value, raw, .. } => if is_generic_base_spec(
            value.resolved_view(),
        ) {
            bracket_inner_spec(raw@)
        } else {
            None
        },
        _ => None,
    }
}

/// Extract generic type parameters from a base class expression. Returns
/// the type parameter text if the base is `Generic[T]` or similar.
pub fn extract_generic_params(base: &TypeExpr) -> (r: Option<String>)
    ensures
        match r {
            Some(params) => generic_params_spec(*base) == Some(params@),
            None => generic_params_spec(*base) is None,
        },
{
    match base {
        TypeExpr::Subscript { value, raw, .. } => {
            let generic = match &value.resolved {
                Some(segments) => is_generic_base(segments),
                None => false,
            };
            if !generic {
                return None;
            }
            let raw_len = raw.as_str().unicode_len();
            let start = match crate::text::find_char(raw.as_str(), '[') {
                Some(i) => i,
                None => {
                    return None;
                },
            };
            let end = match crate::text::rfind_char(raw.as_str(), ']') {
                Some(i) => i,
                None => {
                    return None;
                },
            };
            if start + 1 < end {
                let inner = raw.as_str().substring_char(start + 1, end);
                let trimmed = crate::text::trim(inner);
                Some(trimmed)
            } else {
                None
            }
        },
        _ => None,
    }
}

} // verus!
