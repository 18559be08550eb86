use vstd::prelude::*;

use crate::parserports::first_key;
use crate::validation::{Design, Usage};

verus! {

/// Two different module definitions of a design carry the same name, so
/// they cannot both be emitted.
#[derive(Debug, Clone, PartialEq, Eq)]
pub struct DuplicateModuleName {
    pub name: String,
}

/// What emission has gathered: the names claimed so far, each with the
/// definition (position in the design) that claimed it, and the definitions
/// written so far, in order.
pub type EmitState = (Seq<(Seq<char>, int)>, Seq<int>);

impl Design {
    /// Emission from module `mi` on state `st`: nothing for a module whose
    /// usage is `EmitNothingAndStop` or `EmitDefinitionAndStop`; a name
    /// already claimed by the same module is skipped, by another module
    /// refused; otherwise the module claims its name, the definitions of
    /// its instances are emitted first where it descends, and then the
    /// module itself (in full, or as a stub) is written.
    pub open spec fn spec_emit(self, names: Seq<Seq<char>>, mi: int, st: EmitState) -> Result<EmitState, Seq<char>>
        decreases mi, 1int, 0int,
    {
        if mi < 0 || mi >= self.modules@.len() {
            Ok(st)
        } else {
            let usage = self.module(mi).usage;
            if usage == Usage::EmitNothingAndStop || usage == Usage::EmitDefinitionAndStop {
                Ok(st)
            } else {
                match first_key(st.0, names[mi], 0) {
                    Some(j) => if st.0[j].1 == mi {
                        Ok(st)
                    } else {
                        Err(names[mi])
                    },
                    None => {
                        let st1 = (st.0.push((names[mi], mi)), st.1);
                        let st2 = if usage == Usage::EmitDefinitionAndDescend {
                            self.spec_emit_instances(names, mi, self.module(mi).instances@.len() as int, st1)
                        } else {
                            Ok(st1)
                        };
                        match st2 {
                            Err(n) => Err(n),
                            Ok(s) => Ok((s.0, s.1.push(mi))),
                        }
                    },
                }
            }
        }
    }

    /// Emission of the definitions of the first `k` instances of module `mi`.
    pub open spec fn spec_emit_instances(self, names: Seq<Seq<char>>, mi: int, k: int, st: EmitState) -> Result<EmitState, Seq<char>>
        decreases mi, 0int, k,
    {
        if k <= 0 || mi < 0 || mi >= self.modules@.len() || k > self.module(mi).instances@.len() {
            Ok(st)
        } else {
            match self.spec_emit_instances(names, mi, k - 1, st) {
                Err(n) => Err(n),
                Ok(s) => {
                    let sub = self.module(mi).instances@[k - 1] as int;
                    if sub < mi {
                        self.spec_emit(names, sub, s)
                    } else {
                        Ok(s)
                    }
                },
            }
        }
    }
}

/// The names claimed so far, as plain values.
pub open spec fn claims_view(v: Seq<(String, usize)>) -> Seq<(Seq<char>, int)> {
    v.map_values(|e: (String, usize)| (e.0@, e.1 as int))
}

/// The modules written so far, as integers.
pub open spec fn order_view(v: Seq<usize>) -> Seq<int> {
    v.map_values(|i: usize| i as int)
}

/// The texts of some names.
pub open spec fn names_view(v: Seq<String>) -> Seq<Seq<char>> {
    v.map_values(|s: String| s@)
}

/// The position of the first claim of `name`.
fn find_claim(claims: &Vec<(String, usize)>, name: &String) -> (r: Option<usize>)
    ensures
        match first_key(claims_view(claims@), name@, 0) {
            Some(i) => r == Some(i as usize),
            None => r is None,
        },
        r matches Some(i) ==> i < claims@.len() && first_key(claims_view(claims@), name@, 0) == Some(i as int),
{
    let n = claims.len();
    let mut i: usize = 0;
    while i < n
        invariant
            n == claims@.len(),
            i <= n,
            first_key(claims_view(claims@), name@, 0) == first_key(claims_view(claims@), name@, i as int),
        decreases n - i,
    {
        assert(claims_view(claims@)[i as int].0 == claims@[i as int].0@);
        if claims[i].0 == *name {
            assert(first_key(claims_view(claims@), name@, i as int) == Some(i as int));
            return Some(i);
        }
        i += 1;
    }
    None
}

/// Emits module `mi` and what it descends into, onto `claims` and `order`.
fn emit_module(
    d: &Design,
    names: &Vec<String>,
    mi: usize,
    claims: &mut Vec<(String, usize)>,
    order: &mut Vec<usize>,
) -> (r: Result<(), DuplicateModuleName>)
    requires
        d.wf(),
        mi < d.modules@.len(),
        names@.len() == d.modules@.len(),
    ensures
        match d.spec_emit(names_view(names@), mi as int, (claims_view(old(claims)@), order_view(old(order)@))) {
            Ok(s) => r is Ok && claims_view(final(claims)@) == s.0 && order_view(final(order)@) == s.1,
            Err(n) => r matches Err(e) && e.name@ == n,
        },
    decreases mi,
{
    let m = &d.modules[mi];
    match m.usage {
        Usage::EmitNothingAndStop => {
            return Ok(());
        },
        Usage::EmitDefinitionAndStop => {
            return Ok(());
        },
        _ => {},
    }
    let ghost nv = names_view(names@);
    assert(nv[mi as int] == names@[mi as int]@);
    match find_claim(claims, &names[mi]) {
        Some(j) => {
            assert(claims_view(claims@)[j as int].1 == claims@[j as int].1 as int);
            if claims[j].1 == mi {
                return Ok(());
            } else {
                return Err(DuplicateModuleName { name: names[mi].clone() });
            }
        },
        None => {},
    }
    let ghost c0 = claims_view(claims@);
    assert(first_key(c0, nv[mi as int], 0) is None);
    claims.push((names[mi].clone(), mi));
    assert(claims_view(claims@) =~= c0.push((nv[mi as int], mi as int)));
    match m.usage {
        Usage::EmitDefinitionAndDescend => {
            let ghost st1 = (claims_view(claims@), order_view(order@));
            for k in 0..m.instances.len()
                invariant
                    d.wf(),
                    mi < d.modules@.len(),
                    names@.len() == d.modules@.len(),
                    nv == names_view(names@),
                    m == d.module(mi as int),
                    m.usage == Usage::EmitDefinitionAndDescend,
                    c0 == claims_view(old(claims)@),
                    first_key(c0, nv[mi as int], 0) is None,
                    st1 == (c0.push((nv[mi as int], mi as int)), order_view(old(order)@)),
                    d.spec_emit_instances(nv, mi as int, k as int, st1) == Ok::<EmitState, Seq<char>>(
                        (claims_view(claims@), order_view(order@)),
                    ),
            {
                let sub = m.instances[k];
                assert(sub < mi);
                match emit_module(d, names, sub, claims, order) {
                    Ok(()) => {},
                    Err(e) => {
                        proof {
                            lemma_emit_instances_stops(*d, nv, mi as int, k as int, m.instances@.len() as int, st1);
                        }
                        return Err(e);
                    },
                }
            }
        },
        _ => {},
    }
    let ghost o0 = order_view(order@);
    order.push(mi);
    assert(order_view(order@) =~= o0.push(mi as int));
    Ok(())
}

/// Once the instances before `k + 1` meet a refusal, so do the first `n`.
proof fn lemma_emit_instances_stops(d: Design, names: Seq<Seq<char>>, mi: int, k: int, n: int, st: EmitState)
    requires
        0 <= k < n <= d.module(mi).instances@.len(),
        0 <= mi < d.modules@.len(),
        d.spec_emit_instances(names, mi, k + 1, st) is Err,
    ensures
        d.spec_emit_instances(names, mi, n, st) == d.spec_emit_instances(names, mi, k + 1, st),
    decreases n - k,
{
    if k + 1 < n {
        lemma_emit_instances_stops(d, names, mi, k, n - 1, st);
    }
}

/// The module definitions that emitting module `top` writes, in order
/// (each instance's definition before the module that holds it, each
/// definition once), or the first name that two different definitions
/// claim. `names[i]` is the name of module `i`.
pub fn emission_order(d: &Design, names: &Vec<String>, top: usize) -> (r: Result<Vec<usize>, DuplicateModuleName>)
    requires
        d.wf(),
        top < d.modules@.len(),
        names@.len() == d.modules@.len(),
    ensures
        match d.spec_emit(names_view(names@), top as int, (Seq::empty(), Seq::empty())) {
            Ok(s) => r matches Ok(v) && order_view(v@) == s.1,
            Err(n) => r matches Err(e) && e.name@ == n,
        },
{
    let mut claims: Vec<(String, usize)> = Vec::new();
    let mut order: Vec<usize> = Vec::new();
    assert(claims_view(claims@) =~= Seq::<(Seq<char>, int)>::empty());
    assert(order_view(order@) =~= Seq::<int>::empty());
    match emit_module(d, names, top, &mut claims, &mut order) {
        Ok(()) => Ok(order),
        Err(e) => Err(e),
    }
}

} // verus!
