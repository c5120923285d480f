//! Helpers for qualified names and for reading a class definition's
//! header: protocol, dataclass and abstract-base detection.

use crate::semantic::{segments2, segments3, ClassDef, TypeExpr};
use crate::text::{char_is_alphanumeric, is_alphanumeric_char};
use vstd::prelude::*;

verus! {

/// The segments of a qualified name, joined with dots.
pub open spec fn join_dotted(segments: Seq<Seq<char>>) -> Seq<char>
    decreases segments.len(),
{
    if segments.len() == 0 {
        Seq::<char>::empty()
    } else if segments.len() == 1 {
        segments[0]
    } else {
        join_dotted(segments.drop_last()) + "."@ + segments.last()
    }
}

/// Join the segments of a qualified name with dots.
pub fn join_segments(segments: &Vec<String>) -> (r: String)
    ensures
        r@ == join_dotted(segments.deep_view()),
{
    let ghost dv = segments.deep_view();
    let mut out = String::new();
    let n = segments.len();
    let mut i: usize = 0;
    proof {
        assert(dv.take(0) =~= Seq::<Seq<char>>::empty());
    }
    while i < n
        invariant
            0 <= i <= n,
            n == segments.len(),
            segments.deep_view() == dv,
            out@ == join_dotted(dv.take(i as int)),
        decreases n - i,
    {
        if i > 0 {
            out.append(".");
        }
        out.append(segments[i].as_str());
        proof {
            let taken = dv.take(i + 1);
            assert(taken.drop_last() =~= dv.take(i as int));
            assert(taken.last() == dv[i as int]);
            assert(dv[i as int] == segments@[i as int]@);
            if i == 0 {
                assert(out@ =~= join_dotted(taken));
            } else {
                assert(out@ =~= join_dotted(taken));
            }
        }
        i = i + 1;
    }
    proof {
        assert(dv.take(n as int) =~= dv);
    }
    out
}

/// The text after the last dot of `s`; all of `s` when it has no dot.
pub open spec fn last_dot_segment_spec(s: Seq<char>) -> Seq<char> {
    match crate::text::last_index_of(s, '.') {
        Some(i) => s.skip(i + 1),
        None => s,
    }
}

/// Keep only the text after the last dot.
pub fn last_dot_segment(s: &str) -> (r: String)
    ensures
        r@ == last_dot_segment_spec(s@),
{
    let len = s.unicode_len();
    match crate::text::rfind_char(s, '.') {
        Some(i) => {
            let r = s.substring_char(i + 1, len);
            proof {
                assert(s@.subrange(i + 1, len as int) =~= s@.skip(i + 1));
            }
            r.to_owned()
        },
        None => s.to_owned(),
    }
}

/// Whether every character of `s` may stand unquoted in a diagram name:
/// alphanumeric (including beyond ASCII), underscore or dash.
pub open spec fn plain_name(s: Seq<char>) -> bool {
    forall|i: int|
        0 <= i < s.len() ==> is_alphanumeric_char(#[trigger] s[i]) || s[i] == '_' || s[i] == '-'
}

/// What normalizing a qualified name yields: the name itself when every
/// character is plain, the name wrapped in backticks otherwise.
pub open spec fn normalize_name_spec(s: Seq<char>) -> Seq<char> {
    if plain_name(s) {
        s
    } else {
        "`"@ + s + "`"@
    }
}

/// Helper methods for qualified names in diagram context
pub trait QualifiedNameHelpers: View<V = Seq<char>> {
    /// Wrap the name in backticks unless it is alphanumeric (including
    /// beyond ASCII), underscores and dashes throughout.
    fn normalize_name(&self) -> (r: String)
        ensures
            r@ == normalize_name_spec(self@),
    ;
}

impl QualifiedNameHelpers for str {
    fn normalize_name(&self) -> (r: String) {
        let len = self.unicode_len();
        let mut i: usize = 0;
        let mut plain = true;
        while i < len && plain
            invariant
                0 <= i <= len,
                len == self@.len(),
                plain ==> forall|j: int|
                    0 <= j < i ==> is_alphanumeric_char(#[trigger] self@[j]) || self@[j] == '_'
                        || self@[j] == '-',
                !plain ==> !plain_name(self@),
            decreases len - i, (if plain { 1int } else { 0int }),
        {
            let c = self.get_char(i);
            if !(char_is_alphanumeric(c) || c == '_' || c == '-') {
                plain = false;
            } else {
                i = i + 1;
            }
        }
        if plain {
            self.to_owned()
        } else {
            let mut out = String::new();
            out.append("`");
            out.append(self);
            out.append("`");
            proof {
                assert(out@ =~= normalize_name_spec(self@));
            }
            out
        }
    }
}

/// Whether a resolution reads `typing.Protocol` or
/// `typing_extensions.Protocol`.
pub open spec fn resolves_to_protocol(r: Option<Seq<Seq<char>>>) -> bool {
    match r {
        Some(segments) => segments2(segments, "typing"@, "Protocol"@) || segments2(
            segments,
            "typing_extensions"@,
            "Protocol"@,
        ),
        None => false,
    }
}

/// Whether a resolution reads `abc.ABC` or `abc.ABCMeta`.
pub open spec fn resolves_to_abc(r: Option<Seq<Seq<char>>>) -> bool {
    match r {
        Some(segments) => segments2(segments, "abc"@, "ABC"@) || segments2(
            segments,
            "abc"@,
            "ABCMeta"@,
        ),
        None => false,
    }
}

/// Whether a resolution reads `dataclasses.dataclass` or
/// `pydantic.dataclasses.dataclass`.
pub open spec fn resolves_to_dataclass(r: Option<Seq<Seq<char>>>) -> bool {
    match r {
        Some(segments) => segments2(segments, "dataclasses"@, "dataclass"@) || segments3(
            segments,
            "pydantic"@,
            "dataclasses"@,
            "dataclass"@,
        ),
        None => false,
    }
}

impl TypeExpr {
    /// The resolved segments, where this expression is a resolved name.
    pub fn resolution_ref(&self) -> (r: Option<&Vec<String>>)
        ensures
            match r {
                Some(v) => self.resolution() == Some(v.deep_view()),
                None => self.resolution() is None,
            },
    {
        match self {
            TypeExpr::Name(nr) => match &nr.resolved {
                Some(v) => Some(v),
                None => None,
            },
            TypeExpr::Attribute(nr) => match &nr.resolved {
                Some(v) => Some(v),
                None => None,
            },
            _ => None,
        }
    }

    /// Whether this expression resolves to `typing.Protocol` or
    /// `typing_extensions.Protocol`.
    pub fn resolves_protocol(&self) -> (r: bool)
        ensures
            r == resolves_to_protocol(self.resolution()),
    {
        match self.resolution_ref() {
            Some(segments) => crate::semantic::segments_match2(segments, "typing", "Protocol")
                || crate::semantic::segments_match2(segments, "typing_extensions", "Protocol"),
            None => false,
        }
    }

    /// Whether this expression resolves to `abc.ABC` or `abc.ABCMeta`.
    pub fn resolves_abc(&self) -> (r: bool)
        ensures
            r == resolves_to_abc(self.resolution()),
    {
        match self.resolution_ref() {
            Some(segments) => crate::semantic::segments_match2(segments, "abc", "ABC")
                || crate::semantic::segments_match2(segments, "abc", "ABCMeta"),
            None => false,
        }
    }
}

/// A protocol class: exactly one base-list entry, resolving to a known
/// `Protocol` type.
pub open spec fn is_protocol_spec(c: ClassDef) -> bool {
    &&& c.bases@.len() + c.keywords@.len() == 1
    &&& ((exists|i: int|
        0 <= i < c.bases@.len() && resolves_to_protocol(#[trigger] c.bases@[i].resolution()))
        || (exists|i: int|
        0 <= i < c.keywords@.len() && resolves_to_protocol(
            #[trigger] c.keywords@[i].value.resolution(),
        )))
}

/// A dataclass: decorated with a known dataclass decorator.
pub open spec fn is_dataclass_spec(c: ClassDef) -> bool {
    exists|i: int|
        0 <= i < c.decorators@.len() && resolves_to_dataclass(
            #[trigger] c.decorators@[i].resolved_view(),
        )
}

/// An abstract base: some base or keyword value resolves to `abc.ABC` or
/// `abc.ABCMeta`.
pub open spec fn is_abstract_bases_spec(c: ClassDef) -> bool {
    (exists|i: int|
        0 <= i < c.bases@.len() && resolves_to_abc(#[trigger] c.bases@[i].resolution())) || (
    exists|i: int|
        0 <= i < c.keywords@.len() && resolves_to_abc(
            #[trigger] c.keywords@[i].value.resolution(),
        ))
}

impl ClassDef {
    /// Whether the class is declared as a protocol.
    pub fn is_protocol(&self) -> (r: bool)
        ensures
            r == is_protocol_spec(*self),
    {
        let single = (self.bases.len() == 1 && self.keywords.len() == 0) || (self.bases.len()
            == 0 && self.keywords.len() == 1);
        if !single {
            return false;
        }
        let nb = self.bases.len();
        let mut i: usize = 0;
        while i < nb
            invariant
                0 <= i <= nb,
                nb == self.bases.len(),
                self.bases@.len() + self.keywords@.len() == 1,
                forall|j: int|
                    0 <= j < i ==> !resolves_to_protocol(#[trigger] self.bases@[j].resolution()),
            decreases nb - i,
        {
            if self.bases[i].resolves_protocol() {
                proof {
                    assert(resolves_to_protocol(self.bases@[i as int].resolution()));
                }
                return true;
            }
            i = i + 1;
        }
        let nk = self.keywords.len();
        let mut k: usize = 0;
        while k < nk
            invariant
                0 <= k <= nk,
                nk == self.keywords.len(),
                self.bases@.len() + self.keywords@.len() == 1,
                forall|j: int|
                    0 <= j < k ==> !resolves_to_protocol(
                        #[trigger] self.keywords@[j].value.resolution(),
                    ),
            decreases nk - k,
        {
            if self.keywords[k].value.resolves_protocol() {
                proof {
                    assert(resolves_to_protocol(self.keywords@[k as int].value.resolution()));
                }
                return true;
            }
            k = k + 1;
        }
        false
    }

    /// Whether the class carries a known dataclass decorator.
    pub fn is_dataclass(&self) -> (r: bool)
        ensures
            r == is_dataclass_spec(*self),
    {
        let n = self.decorators.len();
        let mut i: usize = 0;
        while i < n
            invariant
                0 <= i <= n,
                n == self.decorators.len(),
                forall|j: int|
                    0 <= j < i ==> !resolves_to_dataclass(
                        #[trigger] self.decorators@[j].resolved_view(),
                    ),
            decreases n - i,
        {
            let dec = &self.decorators[i];
            let matched = match &dec.resolved {
                Some(segments) => crate::semantic::segments_match2(
                    segments,
                    "dataclasses",
                    "dataclass",
                ) || crate::semantic::segments_match3(
                    segments,
                    "pydantic",
                    "dataclasses",
                    "dataclass",
                ),
                None => false,
            };
            if matched {
                proof {
                    assert(resolves_to_dataclass(self.decorators@[i as int].resolved_view()));
                }
                return true;
            }
            i = i + 1;
        }
        false
    }

    /// Whether some base or metaclass-style keyword value resolves to an
    /// abstract-base marker.
    pub fn is_abstract(&self) -> (r: bool)
        ensures
            r == is_abstract_bases_spec(*self),
    {
        let nb = self.bases.len();
        let mut i: usize = 0;
        while i < nb
            invariant
                0 <= i <= nb,
                nb == self.bases.len(),
                forall|j: int|
                    0 <= j < i ==> !resolves_to_abc(#[trigger] self.bases@[j].resolution()),
            decreases nb - i,
        {
            if self.bases[i].resolves_abc() {
                proof {
                    assert(resolves_to_abc(self.bases@[i as int].resolution()));
                }
                return true;
            }
            i = i + 1;
        }
        let nk = self.keywords.len();
        let mut k: usize = 0;
        while k < nk
            invariant
                0 <= k <= nk,
                nk == self.keywords.len(),
                forall|j: int|
                    0 <= j < k ==> !resolves_to_abc(
                        #[trigger] self.keywords@[j].value.resolution(),
                    ),
            decreases nk - k,
        {
            if self.keywords[k].value.resolves_abc() {
                proof {
                    assert(resolves_to_abc(self.keywords@[k as int].value.resolution()));
                }
                return true;
            }
            k = k + 1;
        }
        false
    }
}

} // verus!
