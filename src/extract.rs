use vstd::prelude::*;

use crate::basis::Basis;

verus! {

/// Highest total order of a force constant: a record has this many index slots.
pub const MAX_ORDER: usize = 4;

/// Why a column of the basis cannot be written as a force constant.
#[derive(Debug, Clone, Copy, PartialEq, Eq, Structural)]
pub enum ExtractError {
    /// The exponents of this column add up to more than the slots of a record.
    DegreeTooHigh { column: usize },
}

/// The integer part of one force-constant record: four variable indices
/// (1-based, 0 for an unused slot) and the product of the factorials of the
/// column's exponents, by which the coefficient is scaled.
#[derive(Debug, Clone, Copy, PartialEq, Eq)]
pub struct FcPattern {
    pub indices: [usize; 4],
    pub factorial: u64,
}

pub open spec fn factorial(n: nat) -> nat
    decreases n,
{
    if n == 0 {
        1
    } else {
        n * factorial((n - 1) as nat)
    }
}

/// Sum of the exponents of column `k` over the first `n` variables.
pub open spec fn degree(b: Basis, k: int, n: nat) -> nat
    decreases n,
{
    if n == 0 {
        0
    } else {
        degree(b, k, (n - 1) as nat) + b.exp(n - 1, k)
    }
}

/// Product of the factorials of the exponents of column `k` over the first
/// `n` variables.
pub open spec fn factorial_product(b: Basis, k: int, n: nat) -> nat
    decreases n,
{
    if n == 0 {
        1
    } else {
        factorial(b.exp(n - 1, k)) * factorial_product(b, k, (n - 1) as nat)
    }
}

/// The 1-based indices of the first `n` variables of column `k`, highest
/// variable first, each repeated as often as its exponent.
pub open spec fn expansion(b: Basis, k: int, n: nat) -> Seq<int>
    decreases n,
{
    if n == 0 {
        seq![]
    } else {
        Seq::new(b.exp(n - 1, k), |j: int| n as int) + expansion(b, k, (n - 1) as nat)
    }
}

/// `s` followed by zeros up to the record's four slots.
pub open spec fn padded(s: Seq<int>) -> Seq<int> {
    s + Seq::new((MAX_ORDER - s.len()) as nat, |j: int| 0)
}

/// `p` is the record of column `k` of `b`.
pub open spec fn is_pattern_of(p: FcPattern, b: Basis, k: int) -> bool {
    &&& forall|i: int|
        0 <= i < MAX_ORDER ==> p.indices@[i] as int == padded(expansion(b, k, b.num_vars()))[i]
    &&& p.factorial == factorial_product(b, k, b.num_vars())
}

pub open spec fn as_ints(s: Seq<usize>) -> Seq<int> {
    s.map_values(|x: usize| x as int)
}

proof fn lemma_expansion_len(b: Basis, k: int, n: nat)
    ensures
        expansion(b, k, n).len() == degree(b, k, n),
    decreases n,
{
    if n > 0 {
        lemma_expansion_len(b, k, (n - 1) as nat);
    }
}

proof fn lemma_factorial_small()
    ensures
        factorial(0) == 1,
        factorial(1) == 1,
        factorial(2) == 2,
        factorial(3) == 6,
        factorial(4) == 24,
{
    reveal_with_fuel(factorial, 5);
}

/// `m! * e! <= (m + e)!` on the orders a record can hold.
proof fn lemma_factorial_split(m: nat, e: nat)
    requires
        m + e <= MAX_ORDER,
    ensures
        factorial(m) * factorial(e) <= factorial(m + e),
{
    lemma_factorial_small();
    let fm = factorial(m);
    let fe = factorial(e);
    let fme = factorial(m + e);
    if m == 0 {
        assert(fm == 1);
    } else if e == 0 {
        assert(fe == 1);
    } else if m == 1 {
        assert(fm == 1);
        assert(fe <= fme) by {
            reveal_with_fuel(factorial, 5);
        }
    } else {
        assert(fm * fe <= fme) by {
            if m == 2 && e == 1 {
                assert(fm == 2 && fe == 1 && fme == 6);
            } else if m == 2 && e == 2 {
                assert(fm == 2 && fe == 2 && fme == 24);
                assert(fm * fe == 4) by (nonlinear_arith)
                    requires
                        fm == 2 && fe == 2,
                ;
            } else {
                assert(m == 3 && e == 1);
                assert(fm == 6 && fe == 1 && fme == 24);
            }
        }
    }
}

/// Slot `i` of a record whose first `count` slots are `buf`.
fn slot(buf: &Vec<usize>, count: usize, i: usize) -> (r: usize)
    requires
        buf@.len() == count,
    ensures
        r == (if i < count { buf@[i as int] } else { 0 }),
{
    if i < count {
        buf[i]
    } else {
        0
    }
}

fn small_factorial(e: u32) -> (r: u64)
    requires
        e <= MAX_ORDER,
    ensures
        r == factorial(e as nat),
{
    proof {
        lemma_factorial_small();
    }
    if e == 0 {
        1
    } else if e == 1 {
        1
    } else if e == 2 {
        2
    } else if e == 3 {
        6
    } else {
        24
    }
}

/// The record of column `k`: its variables are walked from the highest index
/// down, each contributing its 1-based index once per unit of exponent and
/// the factorial of its exponent. A column of total degree above four has no
/// record.
pub fn force_constant_pattern(b: &Basis, k: usize) -> (r: Result<FcPattern, ExtractError>)
    requires
        b.wf(),
        k < b.num_unknowns(),
    ensures
        r is Err <==> degree(*b, k as int, b.num_vars()) > MAX_ORDER,
        r matches Err(e) ==> e == (ExtractError::DegreeTooHigh { column: k }),
        r matches Ok(p) ==> is_pattern_of(p, *b, k as int),
{
    let n = b.nvbl();
    let ghost kk = k as int;
    let mut buf: Vec<usize> = Vec::new();
    let mut count: usize = 0;
    let mut fact: u64 = 1;
    let mut v: usize = n;
    proof {
        lemma_factorial_small();
    }
    while v > 0
        invariant
            b.wf(),
            k < b.num_unknowns(),
            kk == k as int,
            n == b.num_vars(),
            v <= n,
            buf@.len() == count,
            count <= MAX_ORDER,
            degree(*b, kk, n as nat) == count + degree(*b, kk, v as nat),
            expansion(*b, kk, n as nat) == as_ints(buf@) + expansion(*b, kk, v as nat),
            factorial_product(*b, kk, n as nat) == fact * factorial_product(*b, kk, v as nat),
            fact <= factorial(count as nat),
            factorial(count as nat) <= 24,
        decreases v,
    {
        let w = v;
        v = v - 1;
        let e = b.exponent(v, k);
        proof {
            assert(w as nat - 1 == v as nat);
            assert(degree(*b, kk, w as nat) == degree(*b, kk, v as nat) + b.exp(v as int, kk));
        }
        if (e as u64) + (count as u64) > 4 {
            assert(degree(*b, kk, n as nat) > MAX_ORDER);
            return Err(ExtractError::DegreeTooHigh { column: k });
        }
        let f = small_factorial(e);
        proof {
            lemma_factorial_split(count as nat, e as nat);
            assert(fact * f <= factorial(count as nat) * f) by (nonlinear_arith)
                requires
                    fact <= factorial(count as nat),
            ;
            assert(factorial((count + e) as nat) <= 24) by {
                lemma_factorial_small();
                reveal_with_fuel(factorial, 5);
            }
            assert(factorial_product(*b, kk, w as nat) == factorial(b.exp(v as int, kk))
                * factorial_product(*b, kk, v as nat));
            assert(fact * (f * factorial_product(*b, kk, v as nat)) == (fact * f)
                * factorial_product(*b, kk, v as nat)) by (nonlinear_arith);
        }
        fact = fact * f;
        let ghost before = buf@;
        let mut j: u32 = 0;
        while j < e
            invariant
                j <= e,
                e as int + count <= MAX_ORDER,
                v < n,
                buf@.len() == count + j,
                as_ints(buf@) == as_ints(before) + Seq::new(j as nat, |i: int| (v + 1) as int),
            decreases e - j,
        {
            let ghost prev = buf@;
            buf.push(v + 1);
            proof {
                assert(as_ints(buf@) == as_ints(prev).push((v + 1) as int));
                assert(as_ints(buf@) =~= as_ints(before) + Seq::new((j + 1) as nat, |i: int| (v + 1) as int));
            }
            j = j + 1;
        }
        proof {
            assert(expansion(*b, kk, w as nat) =~= Seq::new(e as nat, |i: int| w as int) + expansion(*b, kk, v as nat));
            assert(as_ints(before) + expansion(*b, kk, w as nat) =~= as_ints(buf@) + expansion(*b, kk, v as nat));
        }
        count = count + e as usize;
    }
    proof {
        assert(expansion(*b, kk, 0) == Seq::<int>::empty());
        assert(as_ints(buf@) + Seq::<int>::empty() =~= as_ints(buf@));
        lemma_expansion_len(*b, kk, n as nat);
    }
    let p = FcPattern {
        indices: [slot(&buf, count, 0), slot(&buf, count, 1), slot(&buf, count, 2), slot(&buf, count, 3)],
        factorial: fact,
    };
    proof {
        let full = expansion(*b, kk, n as nat);
        assert(full.len() == count);
        assert(full =~= as_ints(buf@));
        assert forall|i: int| 0 <= i < MAX_ORDER implies p.indices@[i] as int == padded(full)[i] by {
            assert(padded(full)[i] == (if i < count { full[i] } else { 0 }));
            if i < count {
                assert(as_ints(buf@)[i] == buf@[i] as int);
            }
        }
        assert(factorial_product(*b, kk, 0) == 1);
        assert(v == 0);
        let fp0 = factorial_product(*b, kk, v as nat);
        assert(fp0 == 1);
        assert(fact * fp0 == fact) by (nonlinear_arith)
            requires
                fp0 == 1,
        ;
        assert(p.factorial == factorial_product(*b, kk, n as nat));
    }
    Ok(p)
}

/// The records of every column of `b`, in column order. The first column
/// whose total degree exceeds four is reported instead, and no record is
/// made with dropped indices.
pub fn force_constant_patterns(b: &Basis) -> (r: Result<Vec<FcPattern>, ExtractError>)
    requires
        b.wf(),
    ensures
        r is Ok <==> forall|k: int| 0 <= k < b.num_unknowns() ==> degree(*b, k, b.num_vars()) <= MAX_ORDER,
        r matches Ok(ps) ==> {
            &&& ps@.len() == b.num_unknowns()
            &&& forall|k: int| 0 <= k < ps@.len() ==> is_pattern_of(#[trigger] ps@[k], *b, k)
        },
        r matches Err(ExtractError::DegreeTooHigh { column }) ==> {
            &&& column < b.num_unknowns()
            &&& degree(*b, column as int, b.num_vars()) > MAX_ORDER
            &&& forall|k: int| 0 <= k < column ==> degree(*b, k, b.num_vars()) <= MAX_ORDER
        },
{
    let nunk = b.nunk();
    let mut ps: Vec<FcPattern> = Vec::new();
    let mut k: usize = 0;
    while k < nunk
        invariant
            b.wf(),
            nunk == b.num_unknowns(),
            k <= nunk,
            ps@.len() == k,
            forall|j: int| 0 <= j < k ==> is_pattern_of(#[trigger] ps@[j], *b, j),
            forall|j: int| 0 <= j < k ==> degree(*b, j, b.num_vars()) <= MAX_ORDER,
        decreases nunk - k,
    {
        match force_constant_pattern(b, k) {
            Ok(p) => {
                ps.push(p);
            },
            Err(e) => {
                return Err(e);
            },
        }
        k = k + 1;
    }
    Ok(ps)
}

} // verus!
