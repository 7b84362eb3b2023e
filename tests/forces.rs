use anpass::{force_constant_pattern, force_constant_patterns, Basis, BasisError, ExtractError};

fn basis(rows: &[&[i32]]) -> Basis {
    let nunk = rows[0].len();
    let flat: Vec<i32> = rows.iter().flat_map(|r| r.iter().copied()).collect();
    Basis::from_row_major(&flat, nunk).unwrap()
}

fn fact(n: u32) -> u64 {
    (1..=n as u64).product()
}

/// every exponent column of total degree 0..=4 in `n` variables
fn total_degree_columns(n: usize) -> Vec<Vec<u32>> {
    let mut cols = vec![];
    for a in 0..=4u32 {
        for b in 0..=4u32 {
            for c in 0..=4u32 {
                let col = [a, b, c];
                if col[..n].iter().sum::<u32>() <= 4 && col[n..].iter().all(|&e| e == 0) {
                    cols.push(col[..n].to_vec());
                }
            }
        }
    }
    cols
}

#[test]
fn row_major_layout() {
    let b = Basis::from_row_major(&vec![1, 0, 2, 0, 3, 1], 3).unwrap();
    assert_eq!(b.nvbl(), 2);
    assert_eq!(b.nunk(), 3);
    assert_eq!(b.exponent(0, 2), 2);
    assert_eq!(b.exponent(1, 0), 0);
    assert_eq!(b.exponent(1, 1), 3);
    assert_eq!(b.column_of(2), vec![2, 1]);
}

#[test]
fn basis_errors() {
    assert_eq!(Basis::from_row_major(&vec![1, 2], 0).unwrap_err(), BasisError::NoUnknowns);
    assert_eq!(Basis::from_row_major(&vec![1, 2, 3], 2).unwrap_err(), BasisError::Ragged);
    assert_eq!(
        Basis::from_row_major(&vec![1, -1, 3, 0], 2).unwrap_err(),
        BasisError::NegativeExponent
    );
    let empty = Basis::from_row_major(&vec![], 4).unwrap();
    assert_eq!(empty.nvbl(), 0);
}

#[test]
fn pattern_of_mixed_column() {
    // x1^2 * x3: indices walk from the highest variable down
    let b = basis(&[&[2], &[0], &[1]]);
    let p = force_constant_pattern(&b, 0).unwrap();
    assert_eq!(p.indices, [3, 1, 1, 0]);
    assert_eq!(p.factorial, 2);
}

#[test]
fn pattern_of_constant_and_quartic() {
    let b = basis(&[&[0, 4, 1], &[0, 0, 1], &[0, 0, 2]]);
    let ps = force_constant_patterns(&b).unwrap();
    assert_eq!(ps[0].indices, [0, 0, 0, 0]);
    assert_eq!(ps[0].factorial, 1);
    assert_eq!(ps[1].indices, [1, 1, 1, 1]);
    assert_eq!(ps[1].factorial, 24);
    assert_eq!(ps[2].indices, [3, 3, 2, 1]);
    assert_eq!(ps[2].factorial, 2);
}

#[test]
fn patterns_of_all_quartic_monomials_in_three_variables() {
    let cols = total_degree_columns(3);
    assert_eq!(cols.len(), 35);
    let nunk = cols.len();
    let mut flat = vec![];
    for v in 0..3 {
        for col in &cols {
            flat.push(col[v] as i32);
        }
    }
    let b = Basis::from_row_major(&flat, nunk).unwrap();
    let ps = force_constant_patterns(&b).unwrap();
    assert_eq!(ps.len(), nunk);
    for (col, p) in cols.iter().zip(&ps) {
        let mut want = vec![];
        for v in (0..3).rev() {
            for _ in 0..col[v] {
                want.push(v + 1);
            }
        }
        want.resize(4, 0);
        assert_eq!(p.indices.to_vec(), want);
        assert_eq!(p.factorial, col.iter().map(|&e| fact(e)).product::<u64>());
    }
    // the value of a record is coefficient * factorial * conversion factor
    let coeff = 0.125;
    let quartic = cols.iter().position(|c| c == &vec![2, 1, 1]).unwrap();
    let value = coeff * ps[quartic].factorial as f64 * 4.359813653;
    assert!((value - 1.08995341325).abs() < 1e-12);
    assert_eq!(ps[quartic].indices, [3, 2, 1, 1]);
}

#[test]
fn degree_five_column_is_refused() {
    let b = basis(&[&[1, 3, 0], &[0, 2, 0], &[0, 0, 4]]);
    assert_eq!(
        force_constant_pattern(&b, 1),
        Err(ExtractError::DegreeTooHigh { column: 1 })
    );
    assert_eq!(
        force_constant_patterns(&b),
        Err(ExtractError::DegreeTooHigh { column: 1 })
    );
}

#[test]
fn single_exponent_above_four_is_refused() {
    let b = basis(&[&[5]]);
    assert_eq!(
        force_constant_pattern(&b, 0),
        Err(ExtractError::DegreeTooHigh { column: 0 })
    );
}
