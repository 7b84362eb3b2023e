use vstd::prelude::*;

verus! {

/// The sign of one eigenvalue of a Hessian.
#[derive(Debug, Clone, Copy, PartialEq, Eq, Structural)]
pub enum Sign {
    Negative,
    Zero,
    Positive,
}

/// The kind of a stationary point, read from the curvature there.
#[derive(Debug, Clone, Copy, PartialEq, Eq, Structural)]
pub enum StatKind {
    Max,
    Min,
    Stat,
}

pub open spec fn sign_value(s: Sign) -> int {
    match s {
        Sign::Negative => -1,
        Sign::Zero => 0,
        Sign::Positive => 1,
    }
}

/// The sum of the signs, each counted as -1, 0 or +1.
pub open spec fn sign_sum(s: Seq<Sign>) -> int
    decreases s.len(),
{
    if s.len() == 0 {
        0
    } else {
        sign_sum(s.drop_last()) + sign_value(s.last())
    }
}

pub open spec fn all_are(s: Seq<Sign>, x: Sign) -> bool {
    forall|i: int| 0 <= i < s.len() ==> s[i] == x
}

/// All curvatures negative: a maximum; all positive: a minimum; otherwise a
/// generic stationary point. An empty set of signs counts as a maximum.
pub open spec fn kind_of(s: Seq<Sign>) -> StatKind {
    if all_are(s, Sign::Negative) {
        StatKind::Max
    } else if all_are(s, Sign::Positive) {
        StatKind::Min
    } else {
        StatKind::Stat
    }
}

/// The sum of `n` signs lies in `[-n, n]`, and reaches an end exactly when
/// all the signs are equal to that end's sign.
pub proof fn lemma_sign_sum_extremes(s: Seq<Sign>)
    ensures
        -s.len() <= sign_sum(s) <= s.len(),
        sign_sum(s) == -s.len() <==> all_are(s, Sign::Negative),
        sign_sum(s) == s.len() <==> all_are(s, Sign::Positive),
    decreases s.len(),
{
    if s.len() > 0 {
        let p = s.drop_last();
        lemma_sign_sum_extremes(p);
        if all_are(s, Sign::Negative) {
            assert(all_are(p, Sign::Negative)) by {
                assert forall|i: int| 0 <= i < p.len() implies p[i] == Sign::Negative by {
                    assert(p[i] == s[i]);
                }
            }
        }
        if all_are(s, Sign::Positive) {
            assert(all_are(p, Sign::Positive)) by {
                assert forall|i: int| 0 <= i < p.len() implies p[i] == Sign::Positive by {
                    assert(p[i] == s[i]);
                }
            }
        }
        if sign_sum(s) == -s.len() {
            assert forall|i: int| 0 <= i < s.len() implies s[i] == Sign::Negative by {
                if i < p.len() {
                    assert(p[i] == s[i]);
                }
            }
        }
        if sign_sum(s) == s.len() {
            assert forall|i: int| 0 <= i < s.len() implies s[i] == Sign::Positive by {
                if i < p.len() {
                    assert(p[i] == s[i]);
                }
            }
        }
    }
}

/// The classification read from the sum of the signs: a sum of `-n` over
/// `n` signs is a maximum, a sum of `n` a minimum, anything else a generic
/// stationary point. In particular all-positive curvature is a minimum and
/// mixed curvature is neither a maximum nor a minimum.
pub proof fn lemma_kind_from_sum(s: Seq<Sign>)
    ensures
        kind_of(s) == (if sign_sum(s) == -s.len() {
            StatKind::Max
        } else if sign_sum(s) == s.len() {
            StatKind::Min
        } else {
            StatKind::Stat
        }),
        s.len() > 0 && all_are(s, Sign::Positive) ==> kind_of(s) == StatKind::Min,
        (exists|i: int, j: int|
            0 <= i < s.len() && 0 <= j < s.len() && s[i] == Sign::Positive && s[j]
                == Sign::Negative) ==> kind_of(s) == StatKind::Stat,
{
    lemma_sign_sum_extremes(s);
    if s.len() > 0 && all_are(s, Sign::Positive) {
        assert(s[0] == Sign::Positive);
    }
}

/// Classifies a stationary point from the signs of the Hessian's
/// eigenvalues: the signs are summed, and a sum of magnitude equal to the
/// dimension means that all of them agree.
pub fn characterize(signs: &Vec<Sign>) -> (r: StatKind)
    ensures
        r == kind_of(signs@),
{
    let n = signs.len();
    let mut negative: usize = 0;
    let mut positive: usize = 0;
    let mut i: usize = 0;
    while i < n
        invariant
            n == signs@.len(),
            i <= n,
            negative + positive <= i,
            sign_sum(signs@.take(i as int)) == positive - negative,
        decreases n - i,
    {
        proof {
            assert(signs@.take(i as int + 1).drop_last() == signs@.take(i as int));
        }
        match signs[i] {
            Sign::Negative => {
                negative = negative + 1;
            },
            Sign::Zero => {},
            Sign::Positive => {
                positive = positive + 1;
            },
        }
        i = i + 1;
    }
    proof {
        assert(signs@.take(n as int) == signs@);
        lemma_sign_sum_extremes(signs@);
    }
    if negative == n {
        StatKind::Max
    } else if positive == n {
        StatKind::Min
    } else {
        StatKind::Stat
    }
}

} // verus!
