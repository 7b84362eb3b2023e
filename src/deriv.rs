use vstd::prelude::*;

use crate::basis::Basis;

verus! {

/// One monomial of a derivative: `factor * prod_v x[v]^powers[v]`.
#[derive(Debug, Clone)]
pub struct Term {
    pub factor: u64,
    pub powers: Vec<u32>,
}

pub open spec fn as_nats(s: Seq<u32>) -> Seq<nat> {
    s.map_values(|x: u32| x as nat)
}

/// The derivative of the monomial with exponents `e` with respect to
/// variable `i`, by the power rule: `None` where it vanishes, else the
/// factor brought down and the lowered exponents.
pub open spec fn partial(e: Seq<nat>, i: int) -> Option<(nat, Seq<nat>)> {
    if e[i] == 0 {
        None
    } else {
        Some((e[i], e.update(i, (e[i] - 1) as nat)))
    }
}

/// The derivative with respect to variable `i`, then variable `l`.
pub open spec fn second_partial(e: Seq<nat>, i: int, l: int) -> Option<(nat, Seq<nat>)> {
    match partial(e, i) {
        None => None,
        Some((f, e1)) => match partial(e1, l) {
            None => None,
            Some((g, e2)) => Some((f * g, e2)),
        },
    }
}

/// `t` is the term `d`, and is absent exactly when `d` vanishes.
pub open spec fn term_is(t: Option<Term>, d: Option<(nat, Seq<nat>)>) -> bool {
    match t {
        None => d is None,
        Some(t) => d == Some((t.factor as nat, as_nats(t.powers@))),
    }
}

/// The order of differentiation does not matter: the second partial
/// derivatives of a monomial in `i` and `l` agree in either order, so the
/// Hessian of a polynomial is symmetric.
pub proof fn lemma_second_partial_symmetric(e: Seq<nat>, i: int, l: int)
    requires
        0 <= i < e.len(),
        0 <= l < e.len(),
    ensures
        second_partial(e, i, l) == second_partial(e, l, i),
{
    if i != l && e[i] != 0 && e[l] != 0 {
        let a = e.update(i, (e[i] - 1) as nat).update(l, (e[l] - 1) as nat);
        let b = e.update(l, (e[l] - 1) as nat).update(i, (e[i] - 1) as nat);
        assert(a =~= b);
        assert(e[i] * e[l] == e[l] * e[i]) by (nonlinear_arith);
    }
}

/// The exponents of monomial `k` of `b`.
pub fn monomial(b: &Basis, k: usize) -> (r: Vec<u32>)
    requires
        b.wf(),
        k < b.num_unknowns(),
    ensures
        r@.len() == b.num_vars(),
        as_nats(r@) == b.column(k as int),
{
    let r = b.column_of(k);
    assert(as_nats(r@) =~= b.column(k as int));
    r
}

/// The derivative of monomial `k` of `b` with respect to variable `i`.
pub fn gradient_term(b: &Basis, k: usize, i: usize) -> (r: Option<Term>)
    requires
        b.wf(),
        k < b.num_unknowns(),
        i < b.num_vars(),
    ensures
        term_is(r, partial(b.column(k as int), i as int)),
        r matches Some(t) ==> t.factor <= u32::MAX && t.powers@.len() == b.num_vars(),
{
    let mut powers = monomial(b, k);
    let e = powers[i];
    if e == 0 {
        None
    } else {
        let ghost before = powers@;
        powers.set(i, e - 1);
        assert(as_nats(powers@) =~= as_nats(before).update(i as int, (e - 1) as nat));
        Some(Term { factor: e as u64, powers })
    }
}

/// The derivative of monomial `k` of `b` with respect to variable `i`, then
/// variable `l` (`i == l` gives the diagonal of the Hessian).
pub fn hessian_term(b: &Basis, k: usize, i: usize, l: usize) -> (r: Option<Term>)
    requires
        b.wf(),
        k < b.num_unknowns(),
        i < b.num_vars(),
        l < b.num_vars(),
    ensures
        term_is(r, second_partial(b.column(k as int), i as int, l as int)),
{
    match gradient_term(b, k, i) {
        None => None,
        Some(t) => {
            let mut powers = t.powers;
            let e = powers[l];
            if e == 0 {
                None
            } else {
                let ghost before = powers@;
                powers.set(l, e - 1);
                assert(as_nats(powers@) =~= as_nats(before).update(l as int, (e - 1) as nat));
                assert(t.factor * e <= u32::MAX * u32::MAX) by (nonlinear_arith)
                    requires
                        t.factor <= u32::MAX,
                        e <= u32::MAX,
                ;
                Some(Term { factor: t.factor * (e as u64), powers })
            }
        },
    }
}

} // verus!
