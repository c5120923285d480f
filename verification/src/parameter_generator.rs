//! Serialization of a method's parameter list: names only, in declaration
//! order, with the `/`, `*` and `**` markers Python uses.

use crate::semantic::ParamsDef;
use vstd::prelude::*;

verus! {

/// The first `k` positional parameters (positional-only first), comma
/// separated, with `, /` closing the positional-only group.
pub open spec fn pos_args_spec(names: Seq<Seq<char>>, n_posonly: int, k: int) -> Seq<char>
    decreases k,
{
    if k <= 0 {
        Seq::<char>::empty()
    } else {
        pos_args_spec(names, n_posonly, k - 1) + (if k - 1 > 0 {
            ", "@
        } else {
            Seq::<char>::empty()
        }) + names[k - 1] + (if k == n_posonly {
            ", /"@
        } else {
            Seq::<char>::empty()
        })
    }
}

/// The first `k` keyword-only parameters, each preceded by a comma.
pub open spec fn kwonly_spec(names: Seq<Seq<char>>, k: int) -> Seq<char>
    decreases k,
{
    if k <= 0 {
        Seq::<char>::empty()
    } else {
        kwonly_spec(names, k - 1) + ", "@ + names[k - 1]
    }
}

/// The `*` group (with the vararg name), the keyword-only names and the
/// `**` catch-all of the parameter list.
pub open spec fn keyword_section_spec(p: ParamsDef) -> Seq<char> {
    let npos = p.posonlyargs@.len() + p.args@.len();
    let has_star = p.vararg is Some || p.kwonlyargs@.len() > 0;
    (if has_star {
        (if npos > 0 {
            ", "@
        } else {
            Seq::<char>::empty()
        }) + "*"@ + (match p.vararg {
            Some(v) => v@,
            None => Seq::<char>::empty(),
        })
    } else {
        Seq::<char>::empty()
    }) + kwonly_spec(p.kwonlyargs.deep_view(), p.kwonlyargs@.len() as int) + (match p.kwarg {
        Some(kw) => (if npos > 0 || has_star {
            ", "@
        } else {
            Seq::<char>::empty()
        }) + "**"@ + kw@,
        None => Seq::<char>::empty(),
    })
}

/// The rendered parameter list: positional names (with the `/` marker),
/// a `*` group introducing a vararg or keyword-only names, and `**` for
/// the keyword catch-all. Only names appear — no defaults, no annotations.
pub open spec fn params_spec(p: ParamsDef) -> Seq<char> {
    let pos = p.posonlyargs.deep_view() + p.args.deep_view();
    pos_args_spec(pos, p.posonlyargs@.len() as int, pos.len() as int) + keyword_section_spec(p)
}

/// A trimmed-down generator that only serializes the parameters of a
/// function.
pub struct ParameterGenerator {
    buffer: String,
}

impl View for ParameterGenerator {
    type V = Seq<char>;

    closed spec fn view(&self) -> Seq<char> {
        self.buffer@
    }
}

impl ParameterGenerator {
    pub fn new() -> (r: Self)
        ensures
            r@ == Seq::<char>::empty(),
    {
        ParameterGenerator { buffer: String::new() }
    }

    fn p(&mut self, s: &str)
        ensures
            final (self)@ == old(self)@ + s@,
    {
        self.buffer.append(s);
    }

    fn p_if(&mut self, cond: bool, s: &str)
        ensures
            final (self)@ == old(self)@ + (if cond {
                s@
            } else {
                Seq::<char>::empty()
            }),
    {
        if cond {
            self.p(s);
        } else {
            proof {
                assert(self@ =~= old(self)@ + Seq::<char>::empty());
            }
        }
    }

    fn p_delim(&mut self, first: &mut bool, s: &str)
        ensures
            final (self)@ == old(self)@ + (if *old(first) {
                Seq::<char>::empty()
            } else {
                s@
            }),
            *final (first) == false,
    {
        let was_first = *first;
        *first = false;
        self.p_if(!was_first, s);
    }

    /// The positional section: positional-only names, the `/` marker,
    /// then ordinary names.
    #[verifier::loop_isolation(false)]
    #[verifier::rlimit(60)]
    fn unparse_positional(&mut self, parameters: &ParamsDef, first: &mut bool)
        requires
            *old(first),
        ensures
            final (self)@ == old(self)@ + pos_args_spec(
                parameters.posonlyargs.deep_view() + parameters.args.deep_view(),
                parameters.posonlyargs@.len() as int,
                (parameters.posonlyargs@.len() + parameters.args@.len()) as int,
            ),
            *final (first) == (parameters.posonlyargs@.len() + parameters.args@.len() == 0),
    {
        let ghost base = self@;
        let ghost pos = parameters.posonlyargs.deep_view() + parameters.args.deep_view();
        let ghost np = parameters.posonlyargs@.len() as int;

        let n1 = parameters.posonlyargs.len();
        let mut i: usize = 0;
        while i < n1
            invariant
                0 <= i <= n1,
                self@ == base + pos_args_spec(pos, np, i as int),
                *first == (i == 0),
            decreases n1 - i,
        {
            proof {
                assert(pos[i as int] == parameters.posonlyargs.deep_view()[i as int]);
                assert(parameters.posonlyargs.deep_view()[i as int]
                    == parameters.posonlyargs@[i as int]@);
            }
            self.p_delim(first, ", ");
            self.p(parameters.posonlyargs[i].as_str());
            self.p_if(i + 1 == n1, ", /");
            proof {
                assert(self@ =~= base + pos_args_spec(pos, np, i + 1));
            }
            i = i + 1;
        }

        let n2 = parameters.args.len();
        let mut j: usize = 0;
        while j < n2
            invariant
                0 <= j <= n2,
                self@ == base + pos_args_spec(pos, np, n1 + j),
                *first == (n1 + j == 0),
            decreases n2 - j,
        {
            proof {
                assert(pos[n1 + j] == parameters.args.deep_view()[j as int]);
                assert(parameters.args.deep_view()[j as int] == parameters.args@[j as int]@);
            }
            self.p_delim(first, ", ");
            self.p(parameters.args[j].as_str());
            self.p_if(false, ", /");
            proof {
                assert(self@ =~= base + pos_args_spec(pos, np, n1 + j + 1));
            }
            j = j + 1;
        }
        proof {
            assert(pos.len() == n1 + n2);
        }
    }

    /// The keyword section: the `*` group, keyword-only names, `**`.
    #[verifier::loop_isolation(false)]
    #[verifier::rlimit(60)]
    fn unparse_keyword(&mut self, parameters: &ParamsDef, first: &mut bool, Ghost(npos): Ghost<
        int,
    >)
        requires
            npos == parameters.posonlyargs@.len() + parameters.args@.len(),
            *old(first) == (npos == 0),
        ensures
            final (self)@ == old(self)@ + keyword_section_spec(*parameters),
    {
        let ghost base = self@;
        let ghost hs = parameters.vararg is Some || parameters.kwonlyargs@.len() > 0;

        let has_star = parameters.vararg.is_some() || parameters.kwonlyargs.len() > 0;
        if has_star {
            self.p_delim(first, ", ");
            self.p("*");
        }
        if let Some(vararg) = &parameters.vararg {
            self.p(vararg.as_str());
        }
        let ghost p2 = if hs {
            (if npos > 0 {
                ", "@
            } else {
                Seq::<char>::empty()
            }) + "*"@ + (if parameters.vararg is Some {
                parameters.vararg->Some_0@
            } else {
                Seq::<char>::empty()
            })
        } else {
            Seq::<char>::empty()
        };
        proof {
            assert(self@ =~= base + p2);
            assert(*first == (npos == 0 && !hs));
        }
        let ghost after_star = base + p2;

        let n3 = parameters.kwonlyargs.len();
        let mut k: usize = 0;
        while k < n3
            invariant
                0 <= k <= n3,
                self@ == after_star + kwonly_spec(parameters.kwonlyargs.deep_view(), k as int),
                *first == (npos == 0 && !hs),
            decreases n3 - k,
        {
            proof {
                assert(parameters.kwonlyargs.deep_view()[k as int]
                    == parameters.kwonlyargs@[k as int]@);
                assert(!*first);
            }
            self.p_delim(first, ", ");
            self.p(parameters.kwonlyargs[k].as_str());
            proof {
                assert(self@ =~= after_star + kwonly_spec(
                    parameters.kwonlyargs.deep_view(),
                    k + 1,
                ));
            }
            k = k + 1;
        }
        let ghost p3 = kwonly_spec(
            parameters.kwonlyargs.deep_view(),
            parameters.kwonlyargs@.len() as int,
        );
        proof {
            assert(self@ == (base + p2) + p3);
        }

        if let Some(kwarg) = &parameters.kwarg {
            self.p_delim(first, ", ");
            self.p("**");
            self.p(kwarg.as_str());
        }
        let ghost p4 = if parameters.kwarg is Some {
            (if npos > 0 || hs {
                ", "@
            } else {
                Seq::<char>::empty()
            }) + "**"@ + parameters.kwarg->Some_0@
        } else {
            Seq::<char>::empty()
        };
        proof {
            assert(self@ =~= ((base + p2) + p3) + p4);
            assert(keyword_section_spec(*parameters) == (p2 + p3) + p4);
            assert(self@ =~= base + keyword_section_spec(*parameters));
        }
    }

    /// Serialize the declared parameters into the buffer.
    pub fn unparse_parameters(&mut self, parameters: &ParamsDef)
        ensures
            final (self)@ == old(self)@ + params_spec(*parameters),
    {
        let mut first = true;
        let ghost pos = parameters.posonlyargs.deep_view() + parameters.args.deep_view();
        self.unparse_positional(parameters, &mut first);
        proof {
            assert(pos.len() == parameters.posonlyargs@.len() + parameters.args@.len());
        }
        self.unparse_keyword(
            parameters,
            &mut first,
            Ghost((parameters.posonlyargs@.len() + parameters.args@.len()) as int),
        );
        proof {
            let p1 = pos_args_spec(
                pos,
                parameters.posonlyargs@.len() as int,
                pos.len() as int,
            );
            assert(params_spec(*parameters) == p1 + keyword_section_spec(*parameters));
            assert(self@ =~= old(self)@ + params_spec(*parameters));
        }
    }

    /// Hand the serialized parameter list out.
    pub fn generate(self) -> (r: String)
        ensures
            r@ == self@,
    {
        self.buffer
    }
}

} // verus!
