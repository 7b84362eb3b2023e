use anpass::{
    characterize, gradient_term, hessian_term, monomial, Basis, NewtonAction, NewtonControl,
    NewtonError, NewtonEvent, Sign, StatKind, MAX_ITERATIONS,
};

fn basis(rows: &[&[i32]]) -> Basis {
    let nunk = rows[0].len();
    let flat: Vec<i32> = rows.iter().flat_map(|r| r.iter().copied()).collect();
    Basis::from_row_major(&flat, nunk).unwrap()
}

#[test]
fn gradient_of_monomial() {
    // x^3 * y
    let b = basis(&[&[3], &[1]]);
    let t = gradient_term(&b, 0, 0).unwrap();
    assert_eq!(t.factor, 3);
    assert_eq!(t.powers, vec![2, 1]);
    let t = gradient_term(&b, 0, 1).unwrap();
    assert_eq!(t.factor, 1);
    assert_eq!(t.powers, vec![3, 0]);
    assert_eq!(monomial(&b, 0), vec![3, 1]);
}

#[test]
fn gradient_vanishes_without_the_variable() {
    let b = basis(&[&[0], &[2]]);
    assert!(gradient_term(&b, 0, 0).is_none());
}

#[test]
fn hessian_terms() {
    // x^3 * y^2
    let b = basis(&[&[3], &[2]]);
    let d = hessian_term(&b, 0, 0, 0).unwrap();
    assert_eq!(d.factor, 6);
    assert_eq!(d.powers, vec![1, 2]);
    let o = hessian_term(&b, 0, 1, 0).unwrap();
    assert_eq!(o.factor, 6);
    assert_eq!(o.powers, vec![2, 1]);
    let s = hessian_term(&b, 0, 0, 1).unwrap();
    assert_eq!((s.factor, s.powers), (o.factor, o.powers));
    // a linear term has no diagonal second derivative
    let lin = basis(&[&[1], &[1]]);
    assert!(hessian_term(&lin, 0, 0, 0).is_none());
    assert_eq!(hessian_term(&lin, 0, 0, 1).unwrap().factor, 1);
}

#[test]
fn finite_difference_matches_gradient() {
    // p(x, y) = 1.5 x^2 y + 0.5 y^3 - 2 x, evaluated from the terms
    let b = basis(&[&[2, 0, 1], &[1, 3, 0]]);
    let c = [1.5, 0.5, -2.0];
    let value = |x: f64, y: f64| -> f64 {
        (0..3)
            .map(|k| {
                let m = monomial(&b, k);
                c[k] * x.powi(m[0] as i32) * y.powi(m[1] as i32)
            })
            .sum()
    };
    let grad = |x: f64, y: f64, i: usize| -> f64 {
        (0..3)
            .filter_map(|k| gradient_term(&b, k, i).map(|t| (k, t)))
            .map(|(k, t)| c[k] * t.factor as f64 * x.powi(t.powers[0] as i32) * y.powi(t.powers[1] as i32))
            .sum()
    };
    let h = 1e-6;
    for &(x, y) in &[(0.3, -0.7), (0.0, 0.4), (1.2, 0.0)] {
        let fx = (value(x + h, y) - value(x - h, y)) / (2.0 * h);
        let fy = (value(x, y + h) - value(x, y - h)) / (2.0 * h);
        assert!((fx - grad(x, y, 0)).abs() < 1e-6);
        assert!((fy - grad(x, y, 1)).abs() < 1e-6);
    }
}

#[test]
fn classify_signs() {
    assert_eq!(characterize(&vec![Sign::Negative, Sign::Negative]), StatKind::Max);
    assert_eq!(characterize(&vec![Sign::Positive, Sign::Positive, Sign::Positive]), StatKind::Min);
    assert_eq!(characterize(&vec![Sign::Positive, Sign::Negative]), StatKind::Stat);
    assert_eq!(characterize(&vec![Sign::Positive, Sign::Zero]), StatKind::Stat);
    assert_eq!(characterize(&vec![]), StatKind::Max);
}

#[test]
fn newton_converges_on_small_step() {
    let mut c = NewtonControl::new();
    assert_eq!(c.observe(NewtonEvent::Step { small: false }), NewtonAction::TakeStep);
    assert_eq!(c.steps_taken(), 1);
    assert_eq!(c.observe(NewtonEvent::Step { small: true }), NewtonAction::Converged);
    assert_eq!(c.steps_taken(), 1);
}

#[test]
fn newton_fails_on_indefinite_hessian() {
    let mut c = NewtonControl::new();
    assert_eq!(
        c.observe(NewtonEvent::NotPositiveDefinite),
        NewtonAction::Fail(NewtonError::NotPositiveDefinite)
    );
}

#[test]
fn newton_gives_up_after_the_cap() {
    let mut c = NewtonControl::new();
    let mut evaluations = 0;
    loop {
        evaluations += 1;
        match c.observe(NewtonEvent::Step { small: false }) {
            NewtonAction::TakeStep => {}
            other => {
                assert_eq!(other, NewtonAction::Fail(NewtonError::TooManyIterations));
                break;
            }
        }
    }
    assert_eq!(evaluations, MAX_ITERATIONS);
    assert_eq!(MAX_ITERATIONS, 100);
}

#[test]
fn finite_difference_matches_hessian() {
    // p(x, y) = 0.7 x^3 y + 1.1 x^2 - 0.4 y^4
    let b = basis(&[&[3, 2, 0], &[1, 0, 4]]);
    let c = [0.7, 1.1, -0.4];
    let eval_term = |k: usize, t: &anpass::Term, x: f64, y: f64| -> f64 {
        c[k] * t.factor as f64 * x.powi(t.powers[0] as i32) * y.powi(t.powers[1] as i32)
    };
    let grad = |x: f64, y: f64, i: usize| -> f64 {
        (0..3)
            .filter_map(|k| gradient_term(&b, k, i).map(|t| eval_term(k, &t, x, y)))
            .sum()
    };
    let hess = |x: f64, y: f64, i: usize, l: usize| -> f64 {
        (0..3)
            .filter_map(|k| hessian_term(&b, k, i, l).map(|t| eval_term(k, &t, x, y)))
            .sum()
    };
    let h = 1e-6;
    for &(x, y) in &[(0.5, -0.3), (0.0, 0.8), (-1.1, 0.0)] {
        for i in 0..2 {
            let d = |l: usize| -> f64 {
                if l == 0 {
                    (grad(x + h, y, i) - grad(x - h, y, i)) / (2.0 * h)
                } else {
                    (grad(x, y + h, i) - grad(x, y - h, i)) / (2.0 * h)
                }
            };
            for l in 0..2 {
                assert!((d(l) - hess(x, y, i, l)).abs() < 1e-5);
                assert!((hess(x, y, i, l) - hess(x, y, l, i)).abs() < 1e-12);
            }
        }
    }
}
