use nalgebra::DMatrix;
use vstd::prelude::*;

verus! {

/// An integer matrix of nalgebra, seen by the verified code only through
/// its entries.
#[verifier::external_body]
#[derive(Debug)]
pub struct ExponentTable {
    m: DMatrix<i32>,
}

impl Clone for ExponentTable {
    /// Relies on nalgebra's `Clone` for matrices: the copy holds the same
    /// entries.
    #[verifier::external_body]
    fn clone(&self) -> (r: Self)
        ensures
            matrix_entries(r) == matrix_entries(*self),
    {
        ExponentTable { m: self.m.clone() }
    }
}

/// The entries of an integer matrix, row by row.
pub uninterp spec fn matrix_entries(m: ExponentTable) -> Seq<Seq<i32>>;

/// Relies on nalgebra's `DMatrix::from_row_slice`: entry `(v, k)` of the
/// result is `data[v * ncols + k]`. It panics unless `data` holds
/// `nrows * ncols` entries.
#[verifier::external_body]
fn matrix_from_row_slice(nrows: usize, ncols: usize, data: &Vec<i32>) -> (r: ExponentTable)
    requires
        data@.len() == nrows * ncols,
    ensures
        matrix_entries(r).len() == nrows,
        forall|v: int| 0 <= v < nrows ==> (#[trigger] matrix_entries(r)[v]).len() == ncols,
        forall|v: int, k: int|
            0 <= v < nrows && 0 <= k < ncols ==> matrix_entries(r)[v][k] == data@[v * ncols + k],
{
    ExponentTable { m: DMatrix::from_row_slice(nrows, ncols, data) }
}

/// Relies on nalgebra's `Index<(usize, usize)>` for matrices: entry `(v, k)`.
/// It panics outside the matrix.
#[verifier::external_body]
fn matrix_get(t: &ExponentTable, v: usize, k: usize) -> (r: i32)
    requires
        v < matrix_entries(*t).len(),
        k < matrix_entries(*t)[v as int].len(),
    ensures
        r == matrix_entries(*t)[v as int][k as int],
{
    t.m[(v, k)]
}

/// Relies on nalgebra's `Matrix::nrows`: the number of rows.
#[verifier::external_body]
fn matrix_nrows(t: &ExponentTable) -> (r: usize)
    ensures
        r == matrix_entries(*t).len(),
{
    t.m.nrows()
}

/// Why an exponent table was refused.
#[derive(Debug, Clone, Copy, PartialEq, Eq, Structural)]
pub enum BasisError {
    /// The number of unknowns is zero.
    NoUnknowns,
    /// The number of exponents read is not a multiple of the number of unknowns.
    Ragged,
    /// An exponent is negative.
    NegativeExponent,
}

/// A rectangular table of exponents: row `v` belongs to variable `v`, column
/// `k` to unknown `k`, and entry `(v, k)` is the power of variable `v` in
/// monomial `k`.
#[derive(Debug, Clone)]
pub struct Basis {
    table: ExponentTable,
    nunk: usize,
}

pub open spec fn row_major_ok(values: Seq<i32>, nunk: nat) -> bool {
    &&& nunk > 0
    &&& (values.len() as int) % (nunk as int) == 0
    &&& forall|i: int| 0 <= i < values.len() ==> values[i] >= 0
}

proof fn lemma_row_major_index(v: int, k: int, rows: int, nunk: int)
    requires
        0 <= v < rows,
        0 <= k < nunk,
    ensures
        0 <= v * nunk + k < rows * nunk,
{
    assert(v * nunk + k < rows * nunk) by (nonlinear_arith)
        requires
            0 <= v < rows,
            0 <= k < nunk,
    ;
    assert(0 <= v * nunk) by (nonlinear_arith)
        requires
            0 <= v,
            0 <= nunk,
    ;
}

impl Basis {
    /// Number of variables (rows).
    pub closed spec fn num_vars(&self) -> nat {
        matrix_entries(self.table).len()
    }

    /// Number of unknowns (columns).
    pub closed spec fn num_unknowns(&self) -> nat {
        self.nunk as nat
    }

    /// Power of variable `v` in monomial `k`.
    pub closed spec fn exp(&self, v: int, k: int) -> nat {
        matrix_entries(self.table)[v][k] as nat
    }

    pub closed spec fn wf(&self) -> bool {
        let e = matrix_entries(self.table);
        &&& forall|v: int| 0 <= v < e.len() ==> (#[trigger] e[v]).len() == self.nunk
        &&& forall|v: int, k: int| 0 <= v < e.len() && 0 <= k < self.nunk ==> e[v][k] >= 0
    }

    /// The exponents of monomial `k`, one per variable.
    pub open spec fn column(&self, k: int) -> Seq<nat> {
        Seq::new(self.num_vars(), |v: int| self.exp(v, k))
    }

    /// Builds the table from its entries in row-major order, with `nunk`
    /// columns: the number of rows is the number of entries over `nunk`.
    pub fn from_row_major(values: &Vec<i32>, nunk: usize) -> (r: Result<Basis, BasisError>)
        ensures
            nunk == 0 ==> r == Err::<Basis, BasisError>(BasisError::NoUnknowns),
            nunk > 0 && (values@.len() as int) % (nunk as int) != 0 ==> r == Err::<Basis, BasisError>(
                BasisError::Ragged,
            ),
            nunk > 0 && (values@.len() as int) % (nunk as int) == 0 && !row_major_ok(values@, nunk as nat)
                ==> r == Err::<Basis, BasisError>(BasisError::NegativeExponent),
            row_major_ok(values@, nunk as nat) <==> r is Ok,
            r matches Ok(b) ==> {
                &&& b.wf()
                &&& b.num_unknowns() == nunk
                &&& b.num_vars() * nunk == values@.len()
                &&& forall|v: int, k: int|
                    0 <= v < b.num_vars() && 0 <= k < nunk ==> b.exp(v, k) == values@[v * nunk + k]
            },
    {
        if nunk == 0 {
            return Err(BasisError::NoUnknowns);
        }
        let len = values.len();
        if len % nunk != 0 {
            return Err(BasisError::Ragged);
        }
        let mut i: usize = 0;
        while i < len
            invariant
                len == values@.len(),
                nunk > 0,
                (len as int) % (nunk as int) == 0,
                i <= len,
                forall|j: int| 0 <= j < i ==> values@[j] >= 0,
            decreases len - i,
        {
            if values[i] < 0 {
                return Err(BasisError::NegativeExponent);
            }
            i = i + 1;
        }
        let nrows = len / nunk;
        assert(nrows * nunk == len) by (nonlinear_arith)
            requires
                nrows == len / nunk,
                len % nunk == 0,
                nunk > 0,
        ;
        let table = matrix_from_row_slice(nrows, nunk, values);
        proof {
            assert forall|v: int, k: int| 0 <= v < nrows && 0 <= k < nunk implies matrix_entries(
                table,
            )[v][k] >= 0 by {
                lemma_row_major_index(v, k, nrows as int, nunk as int);
            }
        }
        Ok(Basis { table, nunk })
    }

    /// Number of variables.
    pub fn nvbl(&self) -> (r: usize)
        ensures
            r == self.num_vars(),
    {
        matrix_nrows(&self.table)
    }

    /// Number of unknowns.
    pub fn nunk(&self) -> (r: usize)
        ensures
            r == self.num_unknowns(),
    {
        self.nunk
    }

    /// Power of variable `v` in monomial `k`.
    pub fn exponent(&self, v: usize, k: usize) -> (r: u32)
        requires
            self.wf(),
            v < self.num_vars(),
            k < self.num_unknowns(),
        ensures
            r == self.exp(v as int, k as int),
    {
        matrix_get(&self.table, v, k) as u32
    }

    /// The exponents of monomial `k`, one per variable.
    pub fn column_of(&self, k: usize) -> (r: Vec<u32>)
        requires
            self.wf(),
            k < self.num_unknowns(),
        ensures
            r@.len() == self.num_vars(),
            forall|v: int| 0 <= v < r@.len() ==> r@[v] == self.exp(v, k as int),
    {
        let n = self.nvbl();
        let mut r: Vec<u32> = Vec::new();
        let mut v: usize = 0;
        while v < n
            invariant
                self.wf(),
                k < self.num_unknowns(),
                n == self.num_vars(),
                v <= n,
                r@.len() == v,
                forall|w: int| 0 <= w < v ==> r@[w] == self.exp(w, k as int),
            decreases n - v,
        {
            r.push(self.exponent(v, k));
            v = v + 1;
        }
        r
    }
}

} // verus!
