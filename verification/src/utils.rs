//! Small predicates over a class header.

use crate::class_helpers::resolves_to_abc;
use crate::semantic::{segments2, KeywordArg, TypeExpr};
use crate::text::str_eq;
use vstd::prelude::*;

verus! {

/// Whether a resolution reads exactly `abc.ABCMeta`.
pub open spec fn resolves_to_abcmeta(r: Option<Seq<Seq<char>>>) -> bool {
    match r {
        Some(segments) => segments2(segments, "abc"@, "ABCMeta"@),
        None => false,
    }
}

/// A class is an ABC when a `metaclass=` keyword resolves to
/// `abc.ABCMeta` or a base resolves to `abc.ABC` or `abc.ABCMeta`.
pub open spec fn is_abc_class_spec(bases: Seq<TypeExpr>, keywords: Seq<KeywordArg>) -> bool {
    (exists|i: int|
        0 <= i < keywords.len() && ((#[trigger] keywords[i]).arg matches Some(a) && a@
            == "metaclass"@ && resolves_to_abcmeta(keywords[i].value.resolution()))) || (exists|
        i: int,
    |
        0 <= i < bases.len() && resolves_to_abc(#[trigger] bases[i].resolution()))
}

pub fn is_abc_class(bases: &Vec<TypeExpr>, keywords: &Vec<KeywordArg>) -> (r: bool)
    ensures
        r == is_abc_class_spec(bases@, keywords@),
{
    let nk = keywords.len();
    let mut k: usize = 0;
    while k < nk
        invariant
            0 <= k <= nk,
            nk == keywords.len(),
            forall|j: int|
                0 <= j < k ==> !(((#[trigger] keywords@[j]).arg matches Some(a) && a@
                    == "metaclass"@ && resolves_to_abcmeta(keywords@[j].value.resolution()))),
        decreases nk - k,
    {
        let kw = &keywords[k];
        let named = match &kw.arg {
            Some(a) => str_eq(a.as_str(), "metaclass"),
            None => false,
        };
        let meta = match kw.value.resolution_ref() {
            Some(segments) => crate::semantic::segments_match2(segments, "abc", "ABCMeta"),
            None => false,
        };
        if named && meta {
            proof {
                assert((keywords@[k as int].arg matches Some(a) && a@ == "metaclass"@
                    && resolves_to_abcmeta(keywords@[k as int].value.resolution())));
            }
            return true;
        }
        k = k + 1;
    }
    let nb = bases.len();
    let mut i: usize = 0;
    while i < nb
        invariant
            0 <= i <= nb,
            nb == bases.len(),
            forall|j: int|
                0 <= j < nk ==> !(((#[trigger] keywords@[j]).arg matches Some(a) && a@
                    == "metaclass"@ && resolves_to_abcmeta(keywords@[j].value.resolution()))),
            nk == keywords.len(),
            forall|j: int| 0 <= j < i ==> !resolves_to_abc(#[trigger] bases@[j].resolution()),
        decreases nb - i,
    {
        if bases[i].resolves_abc() {
            proof {
                assert(resolves_to_abc(bases@[i as int].resolution()));
            }
            return true;
        }
        i = i + 1;
    }
    false
}

} // verus!
