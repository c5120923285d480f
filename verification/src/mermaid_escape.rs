//! Escaping of identifiers for Mermaid output.
//!
//! Mermaid treats a run of leading underscores as markup, so every leading
//! underscore is prefixed with a backslash. Underscores elsewhere in the
//! identifier are left alone.

use vstd::prelude::*;

verus! {

/// Number of consecutive underscores at the start of `s`.
pub open spec fn leading_underscores(s: Seq<char>) -> nat
    decreases s.len(),
{
    if s.len() == 0 || s[0] != '_' {
        0
    } else {
        1 + leading_underscores(s.skip(1))
    }
}

/// The text `\_` repeated `k` times.
pub open spec fn escape_prefix(k: nat) -> Seq<char>
    decreases k,
{
    if k == 0 {
        Seq::<char>::empty()
    } else {
        escape_prefix((k - 1) as nat) + seq!['\\', '_']
    }
}

/// What escaping an identifier yields: each leading underscore becomes `\_`,
/// the rest of the identifier is unchanged.
pub open spec fn escape_underscores_spec(s: Seq<char>) -> Seq<char> {
    escape_prefix(leading_underscores(s)) + s.skip(leading_underscores(s) as int)
}

proof fn lemma_leading_underscores_bound(s: Seq<char>)
    ensures
        leading_underscores(s) <= s.len(),
    decreases s.len(),
{
    if s.len() == 0 || s[0] != '_' {
    } else {
        lemma_leading_underscores_bound(s.skip(1));
    }
}

/// A count `k` with underscores everywhere before it and a non-underscore (or
/// the end) at position `k` is exactly `leading_underscores`.
proof fn lemma_leading_underscores_characterization(s: Seq<char>, k: int)
    requires
        0 <= k <= s.len(),
        forall|j: int| 0 <= j < k ==> s[j] == '_',
        k == s.len() || s[k] != '_',
    ensures
        leading_underscores(s) == k,
    decreases s.len(),
{
    if k == 0 {
    } else {
        assert(s[0] == '_');
        let t = s.skip(1);
        assert forall|j: int| 0 <= j < k - 1 implies t[j] == '_' by {
            assert(t[j] == s[j + 1]);
        }
        if k - 1 < t.len() {
            assert(t[k - 1] == s[k]);
        }
        lemma_leading_underscores_characterization(t, k - 1);
    }
}

/// Escaping for Mermaid identifiers.
pub trait MermaidEscape: View<V = Seq<char>> {
    /// Escape every leading underscore with a backslash.
    fn escape_underscores(&self) -> (r: String)
        ensures
            r@ == escape_underscores_spec(self@),
    ;
}

impl MermaidEscape for str {
    fn escape_underscores(&self) -> (r: String) {
        let len = self.unicode_len();
        let mut k: usize = 0;
        while k < len && self.get_char(k) == '_'
            invariant
                0 <= k <= len,
                len == self@.len(),
                forall|j: int| 0 <= j < k ==> self@[j] == '_',
            decreases len - k,
        {
            k = k + 1;
        }
        proof {
            lemma_leading_underscores_characterization(self@, k as int);
        }
        let mut out = String::new();
        let mut i: usize = 0;
        while i < k
            invariant
                0 <= i <= k,
                out@ == escape_prefix(i as nat),
            decreases k - i,
        {
            out.append("\\_");
            proof {
                reveal_strlit("\\_");
                assert(("\\_")@ =~= seq!['\\', '_']);
            }
            i = i + 1;
        }
        let rest = self.substring_char(k, len);
        out.append(rest);
        proof {
            assert(rest@ =~= self@.skip(k as int));
        }
        out
    }
}

} // verus!
