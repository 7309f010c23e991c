//! Dense matrices in row-major order.
//!
//! [`Grid`] is the mathematical matrix: its operations say what each cell of
//! a result is, with every sum taken from the left as the executable code
//! takes it. [`Mat`] is the matrix in memory; its view is a grid.
use vstd::prelude::*;
use vstd::slice::{slice_subrange, slice_to_vec};
use crate::scalar::{is_zero, one, zero, Scalar};
use crate::tuples::Tuple4D;

verus! {

/// A matrix as a mathematical value: `rows * cols` cells, row after row.
pub struct Grid<S> {
    pub rows: nat,
    pub cols: nat,
    pub cells: Seq<S>,
}

impl<S: Scalar> Grid<S> {
    pub open spec fn well_formed(self) -> bool {
        self.cells.len() == self.rows * self.cols
    }

    /// The cell in row `i` and column `j`.
    pub open spec fn at(self, i: int, j: int) -> S {
        self.cells[i * self.cols + j]
    }

    /// Row `i` as a sequence.
    pub open spec fn row(self, i: int) -> Seq<S> {
        self.cells.subrange(i * self.cols, (i + 1) * self.cols)
    }

    pub open spec fn zeros(rows: nat, cols: nat) -> Self {
        Grid { rows, cols, cells: Seq::new(rows * cols, |k: int| zero::<S>()) }
    }

    /// Ones on the diagonal, zeros elsewhere.
    pub open spec fn identity(n: nat) -> Self {
        Grid {
            rows: n,
            cols: n,
            cells: Seq::new(
                n * n,
                |k: int|
                    if k / (n as int) == k % (n as int) {
                        one::<S>()
                    } else {
                        zero::<S>()
                    },
            ),
        }
    }

    /// The matrix times the column `(x, y, z, w)`: each of the first four
    /// rows weighted by the tuple.
    pub open spec fn apply(self, tuple: Tuple4D<S>) -> Tuple4D<S> {
        Tuple4D {
            x: tuple.weighted(self.row(0)),
            y: tuple.weighted(self.row(1)),
            z: tuple.weighted(self.row(2)),
            w: tuple.weighted(self.row(3)),
        }
    }

    /// The first `n` terms of row `i` of `self` times column `j` of `other`,
    /// summed from the left, starting at zero.
    pub open spec fn inner(self, other: Self, i: int, j: int, n: nat) -> S
        decreases n,
    {
        if n == 0 {
            zero::<S>()
        } else {
            self.inner(other, i, j, (n - 1) as nat).sum(
                self.at(i, n - 1).product(other.at(n - 1, j)),
            )
        }
    }

    /// The matrix product: cell `(i, j)` is row `i` of `self` times column
    /// `j` of `other`.
    pub open spec fn product(self, other: Self) -> Self {
        Grid {
            rows: self.rows,
            cols: other.cols,
            cells: Seq::new(
                self.rows * other.cols,
                |k: int|
                    self.inner(other, k / (other.cols as int), k % (other.cols as int), self.cols),
            ),
        }
    }

    /// Cell `(j, i)` of the result is cell `(i, j)` of `self`.
    pub open spec fn transposed(self) -> Self {
        Grid {
            rows: self.cols,
            cols: self.rows,
            cells: Seq::new(
                self.cols * self.rows,
                |k: int| self.at(k % (self.rows as int), k / (self.rows as int)),
            ),
        }
    }

    /// The index in `self` of index `k` of a matrix that lacks index `gone`.
    pub open spec fn skip(k: int, gone: int) -> int {
        if k < gone {
            k
        } else {
            k + 1
        }
    }

    /// The matrix without one row and one column.
    pub open spec fn without(self, row: int, col: int) -> Self {
        Grid {
            rows: (self.rows - 1) as nat,
            cols: (self.cols - 1) as nat,
            cells: Seq::new(
                ((self.rows - 1) * (self.cols - 1)) as nat,
                |k: int|
                    self.at(
                        Self::skip(k / (self.cols - 1), row),
                        Self::skip(k % (self.cols - 1), col),
                    ),
            ),
        }
    }

    /// `ad - bc` for two rows; otherwise the expansion along row 0.
    pub open spec fn determinant(self) -> S
        decreases self.rows, 3nat, 0nat,
    {
        if self.rows == 2 {
            self.at(0, 0).product(self.at(1, 1)).difference(self.at(0, 1).product(self.at(1, 0)))
        } else {
            self.expansion(self.cols)
        }
    }

    /// The first `n` terms of the expansion along row 0, summed from the
    /// left, starting at zero: cell `(0, c)` times its cofactor.
    pub open spec fn expansion(self, n: nat) -> S
        decreases self.rows, 2nat, n,
    {
        if n == 0 {
            zero::<S>()
        } else {
            self.expansion((n - 1) as nat).sum(self.cells[n - 1].product(self.cofactor(0, n - 1)))
        }
    }

    /// The minor with the sign of its place: plus where `i + j` is even.
    pub open spec fn cofactor(self, i: int, j: int) -> S
        decreases self.rows, 1nat, 0nat,
    {
        if (i + j) % 2 == 0 {
            S::ratio(1, 1).product(self.minor(i, j))
        } else {
            S::ratio((-1) as i64, 1).product(self.minor(i, j))
        }
    }

    /// The determinant of the matrix without row `i` and column `j`.
    pub open spec fn minor(self, i: int, j: int) -> S
        decreases self.rows, 0nat, 0nat,
    {
        if self.rows == 0 {
            zero::<S>()
        } else {
            self.without(i, j).determinant()
        }
    }

    /// None where the determinant is zero; otherwise cell `(col, row)` is
    /// the cofactor of `(row, col)` over the determinant.
    pub open spec fn inverse(self) -> Option<Self> {
        if self.determinant().same(zero::<S>()) {
            None
        } else {
            Some(
                Grid {
                    rows: self.cols,
                    cols: self.rows,
                    cells: Seq::new(
                        self.cols * self.rows,
                        |k: int|
                            self.cofactor(k % (self.rows as int), k / (self.rows as int)).quotient(
                                self.determinant(),
                            ),
                    ),
                },
            )
        }
    }

    /// Cell `(i, i)` of the identity is one and every other cell is zero.
    pub proof fn lemma_identity_cells(n: nat, i: int, j: int)
        requires
            0 <= i < n,
            0 <= j < n,
        ensures
            Self::identity(n).at(i, j) == if i == j {
                one::<S>()
            } else {
                zero::<S>()
            },
    {
        lemma_cell_index(i, j, n as int, n as int);
    }

    /// Cell `(i, j)` of a product is row `i` of the left matrix times
    /// column `j` of the right one.
    pub proof fn lemma_product_cells(self, other: Self, i: int, j: int)
        requires
            0 <= i < self.rows,
            0 <= j < other.cols,
        ensures
            self.product(other).at(i, j) == self.inner(other, i, j, self.cols),
    {
        lemma_cell_index(i, j, self.rows as int, other.cols as int);
    }

    /// Cell `(j, i)` of the transposed matrix is cell `(i, j)` of the
    /// matrix.
    pub proof fn lemma_transposed_cells(self, i: int, j: int)
        requires
            0 <= i < self.rows,
            0 <= j < self.cols,
        ensures
            self.transposed().at(j, i) == self.at(i, j),
    {
        lemma_cell_index(j, i, self.cols as int, self.rows as int);
    }

    /// Transposing twice gives the matrix back.
    pub proof fn lemma_transposed_twice(self)
        requires
            self.well_formed(),
        ensures
            self.transposed().transposed() == self,
    {
        let back = self.transposed().transposed();
        assert(self.rows * self.cols == self.cols * self.rows) by (nonlinear_arith);
        assert forall|k: int| 0 <= k < self.cells.len() implies back.cells[k] == self.cells[k] by {
            lemma_split_index(k, self.rows as int, self.cols as int);
            let i = k / (self.cols as int);
            let j = k % (self.cols as int);
            self.lemma_transposed_cells(i, j);
            self.transposed().lemma_transposed_cells(j, i);
        }
        assert(back.cells =~= self.cells);
    }

    /// Cell `(i, j)` of the matrix without a row and a column is the cell
    /// of the matrix at the same place, counted past the row and the column
    /// that are gone.
    pub proof fn lemma_without_cells(self, row: int, col: int, i: int, j: int)
        requires
            0 <= i < self.rows - 1,
            0 <= j < self.cols - 1,
        ensures
            self.without(row, col).at(i, j) == self.at(Self::skip(i, row), Self::skip(j, col)),
    {
        lemma_cell_index(i, j, self.rows - 1, self.cols - 1);
    }

    /// Cell `(col, row)` of the inverse is the cofactor of `(row, col)`
    /// over the determinant.
    pub proof fn lemma_inverse_cells(self, row: int, col: int)
        requires
            0 <= row < self.rows,
            0 <= col < self.cols,
            self.inverse().is_some(),
        ensures
            self.inverse().unwrap().at(col, row) == self.cofactor(row, col).quotient(
                self.determinant(),
            ),
    {
        lemma_cell_index(col, row, self.cols as int, self.rows as int);
    }
}

/// The place of cell `(i, j)` lies inside the cells.
pub proof fn lemma_cell_index(i: int, j: int, rows: int, cols: int)
    requires
        0 <= i < rows,
        0 <= j < cols,
    ensures
        0 <= i * cols + j < rows * cols,
        (i * cols + j) / cols == i,
        (i * cols + j) % cols == j,
{
    assert(0 <= i * cols && (i + 1) * cols <= rows * cols) by (nonlinear_arith)
        requires
            0 <= i < rows,
            0 < cols,
    ;
    assert((i + 1) * cols == i * cols + cols) by (nonlinear_arith);
    vstd::arithmetic::div_mod::lemma_fundamental_div_mod_converse(i * cols + j, cols, i, j);
}

/// A place inside the cells splits into a row and a column.
pub proof fn lemma_split_index(k: int, rows: int, cols: int)
    requires
        0 <= k < rows * cols,
        0 <= rows,
        0 <= cols,
    ensures
        0 < cols,
        0 <= k / cols < rows,
        0 <= k % cols < cols,
        (k / cols) * cols + k % cols == k,
{
    assert(0 < cols) by (nonlinear_arith)
        requires
            0 <= k < rows * cols,
            0 <= cols,
    ;
    vstd::arithmetic::div_mod::lemma_fundamental_div_mod(k, cols);
    vstd::arithmetic::div_mod::lemma_mod_bound(k, cols);
    let q = k / cols;
    assert(cols * q == q * cols) by (nonlinear_arith);
    assert(0 <= q < rows) by (nonlinear_arith)
        requires
            0 <= k < rows * cols,
            0 < cols,
            k == q * cols + k % cols,
            0 <= k % cols < cols,
    ;
}

#[derive(Debug)]
pub struct Mat<S> {
    pub rows: usize,
    pub cols: usize,
    pub x: Vec<S>,
}

impl<S: Scalar> View for Mat<S> {
    type V = Grid<S>;

    open spec fn view(&self) -> Grid<S> {
        Grid { rows: self.rows as nat, cols: self.cols as nat, cells: self.x@ }
    }
}

impl<S: Scalar> Clone for Mat<S> {
    fn clone(&self) -> (r: Self)
        ensures
            r@ == self@,
    {
        Mat { rows: self.rows, cols: self.cols, x: slice_to_vec(self.x.as_slice()) }
    }
}

impl<S: Scalar> Mat<S> {
    /// There are exactly `rows * cols` cells.
    pub open spec fn wf(&self) -> bool {
        self.x@.len() == self.rows * self.cols
    }

    /// A matrix of `rows` rows from cells given row after row. The number of
    /// columns is the number of cells over `rows`, cut to a whole number;
    /// cells beyond the last full row are dropped.
    pub fn new(x: Vec<S>, rows: usize) -> (r: Self)
        requires
            rows > 0,
        ensures
            r.wf(),
            r.rows == rows,
            r.cols == x@.len() / (rows as nat),
            r.x@ == x@.subrange(0, rows * (x@.len() / (rows as nat))),
    {
        let mut x = x;
        let cols = x.len() / rows;
        proof {
            vstd::arithmetic::div_mod::lemma_fundamental_div_mod(x@.len() as int, rows as int);
            vstd::arithmetic::div_mod::lemma_mod_bound(x@.len() as int, rows as int);
        }
        x.truncate(rows * cols);
        Mat { rows, cols, x }
    }

    pub fn eye(n: usize) -> (r: Self)
        requires
            n * n <= usize::MAX,
        ensures
            r.wf(),
            r@ == Grid::<S>::identity(n as nat),
            forall|i: int, j: int|
                0 <= i < n && 0 <= j < n ==> #[trigger] r@.at(i, j) == if i == j {
                    one::<S>()
                } else {
                    zero::<S>()
                },
    {
        let total = n * n;
        let mut x: Vec<S> = Vec::new();
        let mut k: usize = 0;
        while k < total
            invariant
                total == n * n,
                k <= total,
                x@.len() == k,
                forall|t: int|
                    0 <= t < k ==> x@[t] == if t / (n as int) == t % (n as int) {
                        one::<S>()
                    } else {
                        zero::<S>()
                    },
            decreases total - k,
        {
            proof {
                lemma_split_index(k as int, n as int, n as int);
            }
            if k / n == k % n {
                x.push(S::from_ratio(1, 1));
            } else {
                x.push(S::from_ratio(0, 1));
            }
            k += 1;
        }
        let r = Mat { rows: n, cols: n, x };
        assert(r@.cells =~= Grid::<S>::identity(n as nat).cells);
        assert forall|i: int, j: int| 0 <= i < n && 0 <= j < n implies #[trigger] r@.at(i, j) == if i
            == j {
            one::<S>()
        } else {
            zero::<S>()
        } by {
            Grid::<S>::lemma_identity_cells(n as nat, i, j);
        }
        r
    }

    pub fn zeros(rows: usize, cols: usize) -> (r: Self)
        requires
            rows * cols <= usize::MAX,
        ensures
            r.wf(),
            r@ == Grid::<S>::zeros(rows as nat, cols as nat),
    {
        let total = rows * cols;
        let mut x: Vec<S> = Vec::new();
        let mut k: usize = 0;
        while k < total
            invariant
                k <= total,
                x@.len() == k,
                forall|t: int| 0 <= t < k ==> x@[t] == zero::<S>(),
            decreases total - k,
        {
            x.push(S::from_ratio(0, 1));
            k += 1;
        }
        let r = Mat { rows, cols, x };
        assert(r@.cells =~= Grid::<S>::zeros(rows as nat, cols as nat).cells);
        r
    }

    pub fn at(&self, i: usize, j: usize) -> (r: S)
        requires
            i * self.cols + j < self.x@.len(),
        ensures
            r == self@.at(i as int, j as int),
    {
        let len = self.x.len();
        assert(i * self.cols <= i * self.cols + j < len);
        self.x[i * self.cols + j]
    }

    /// The cells of row `i`.
    pub fn col(&self, i: usize) -> (r: &[S])
        requires
            i < usize::MAX,
            (i + 1) * self.cols <= self.x@.len(),
        ensures
            r@ == self@.row(i as int),
    {
        let len = self.x.len();
        assert(0 <= i * self.cols <= (i + 1) * self.cols) by (nonlinear_arith)
            requires
                0 <= i,
                0 <= self.cols,
        ;
        slice_subrange(self.x.as_slice(), i * self.cols, (i + 1) * self.cols)
    }

    pub fn mul(&self, tuple: &Tuple4D<S>) -> (r: Tuple4D<S>)
        requires
            self.wf(),
            self.cols == 4,
            self.rows >= 4,
        ensures
            r == self@.apply(*tuple),
    {
        assert(4 * self.cols <= self.rows * self.cols) by (nonlinear_arith)
            requires
                self.rows >= 4,
        ;
        let x = tuple.col_dot(self.col(0));
        let y = tuple.col_dot(self.col(1));
        let z = tuple.col_dot(self.col(2));
        let w = tuple.col_dot(self.col(3));
        Tuple4D::new(x, y, z, w)
    }

    pub fn mat_mul(&self, other: &Mat<S>) -> (r: Self)
        requires
            self.wf(),
            other.wf(),
            self.cols == other.rows,
            self.rows * other.cols <= usize::MAX,
        ensures
            r.wf(),
            r@ == self@.product(other@),
            forall|i: int, j: int|
                0 <= i < self.rows && 0 <= j < other.cols ==> #[trigger] r@.at(i, j) == self@.inner(
                    other@,
                    i,
                    j,
                    self.cols as nat,
                ),
    {
        let total = self.rows * other.cols;
        let mut x: Vec<S> = Vec::new();
        let mut k: usize = 0;
        while k < total
            invariant
                self.wf(),
                other.wf(),
                self.cols == other.rows,
                total == self.rows * other.cols,
                k <= total,
                x@.len() == k,
                forall|t: int|
                    0 <= t < k ==> x@[t] == self@.inner(
                        other@,
                        t / (other.cols as int),
                        t % (other.cols as int),
                        self.cols as nat,
                    ),
            decreases total - k,
        {
            proof {
                lemma_split_index(k as int, self.rows as int, other.cols as int);
            }
            let i = k / other.cols;
            let j = k % other.cols;
            let mut cell = S::from_ratio(0, 1);
            let mut n: usize = 0;
            while n < self.cols
                invariant
                    self.wf(),
                    other.wf(),
                    self.cols == other.rows,
                    i < self.rows,
                    j < other.cols,
                    n <= self.cols,
                    cell == self@.inner(other@, i as int, j as int, n as nat),
                decreases self.cols - n,
            {
                proof {
                    lemma_cell_index(i as int, n as int, self.rows as int, self.cols as int);
                    lemma_cell_index(n as int, j as int, other.rows as int, other.cols as int);
                }
                cell = cell.add(self.at(i, n).mul(other.at(n, j)));
                n += 1;
            }
            x.push(cell);
            k += 1;
        }
        let r = Mat { rows: self.rows, cols: other.cols, x };
        assert(r@.cells =~= self@.product(other@).cells);
        assert forall|i: int, j: int| 0 <= i < self.rows && 0 <= j < other.cols implies #[trigger] r@.at(
            i,
            j,
        ) == self@.inner(other@, i, j, self.cols as nat) by {
            self@.lemma_product_cells(other@, i, j);
        }
        r
    }

    pub fn transpose(&self) -> (r: Self)
        requires
            self.wf(),
        ensures
            r.wf(),
            r@ == self@.transposed(),
            forall|i: int, j: int|
                0 <= i < self.rows && 0 <= j < self.cols ==> #[trigger] r@.at(j, i) == self@.at(i, j),
    {
        let len = self.x.len();
        assert(self.cols * self.rows == self.rows * self.cols) by (nonlinear_arith);
        let total = self.cols * self.rows;
        let mut x: Vec<S> = Vec::new();
        let mut k: usize = 0;
        while k < total
            invariant
                self.wf(),
                total == self.cols * self.rows,
                k <= total,
                x@.len() == k,
                forall|t: int|
                    0 <= t < k ==> x@[t] == self@.at(
                        t % (self.rows as int),
                        t / (self.rows as int),
                    ),
            decreases total - k,
        {
            proof {
                lemma_split_index(k as int, self.cols as int, self.rows as int);
                lemma_cell_index(
                    (k % self.rows) as int,
                    (k / self.rows) as int,
                    self.rows as int,
                    self.cols as int,
                );
            }
            x.push(self.at(k % self.rows, k / self.rows));
            k += 1;
        }
        let r = Mat { rows: self.cols, cols: self.rows, x };
        assert(r@.cells =~= self@.transposed().cells);
        assert forall|i: int, j: int| 0 <= i < self.rows && 0 <= j < self.cols implies #[trigger] r@.at(
            j,
            i,
        ) == self@.at(i, j) by {
            self@.lemma_transposed_cells(i, j);
        }
        r
    }

    pub fn submatrix(&self, row: usize, col: usize) -> (r: Self)
        requires
            self.wf(),
            row < self.rows,
            col < self.cols,
        ensures
            r.wf(),
            r@ == self@.without(row as int, col as int),
            forall|i: int, j: int|
                0 <= i < self.rows - 1 && 0 <= j < self.cols - 1 ==> #[trigger] r@.at(i, j)
                    == self@.at(
                    Grid::<S>::skip(i, row as int),
                    Grid::<S>::skip(j, col as int),
                ),
    {
        let len = self.x.len();
        assert(0 <= (self.rows - 1) * (self.cols - 1) <= self.rows * self.cols) by (nonlinear_arith)
            requires
                self.rows >= 1,
                self.cols >= 1,
        ;
        let total = (self.rows - 1) * (self.cols - 1);
        let mut x: Vec<S> = Vec::new();
        let mut k: usize = 0;
        while k < total
            invariant
                self.wf(),
                row < self.rows,
                col < self.cols,
                total == (self.rows - 1) * (self.cols - 1),
                k <= total,
                x@.len() == k,
                forall|t: int|
                    0 <= t < k ==> x@[t] == self@.at(
                        Grid::<S>::skip(t / (self.cols - 1), row as int),
                        Grid::<S>::skip(t % (self.cols - 1), col as int),
                    ),
            decreases total - k,
        {
            proof {
                lemma_split_index(k as int, self.rows - 1, self.cols - 1);
            }
            let new_i = k / (self.cols - 1);
            let new_j = k % (self.cols - 1);
            let i = if new_i < row {
                new_i
            } else {
                new_i + 1
            };
            let j = if new_j < col {
                new_j
            } else {
                new_j + 1
            };
            proof {
                lemma_cell_index(i as int, j as int, self.rows as int, self.cols as int);
            }
            x.push(self.at(i, j));
            k += 1;
        }
        let r = Mat { rows: self.rows - 1, cols: self.cols - 1, x };
        assert(r@.cells =~= self@.without(row as int, col as int).cells);
        assert forall|i: int, j: int| 0 <= i < self.rows - 1 && 0 <= j < self.cols - 1 implies #[trigger] r@.at(
            i,
            j,
        ) == self@.at(Grid::<S>::skip(i, row as int), Grid::<S>::skip(j, col as int)) by {
            self@.lemma_without_cells(row as int, col as int, i, j);
        }
        r
    }

    pub fn minor(&self, i: usize, j: usize) -> (r: S)
        requires
            self.wf(),
            self.cols == self.rows,
            i < self.rows,
            j < self.cols,
        ensures
            r == self@.minor(i as int, j as int),
        decreases self.rows, 0nat,
    {
        self.submatrix(i, j).determinant()
    }

    pub fn cofactor(&self, i: usize, j: usize) -> (r: S)
        requires
            self.wf(),
            self.cols == self.rows,
            i < self.rows,
            j < self.cols,
        ensures
            r == self@.cofactor(i as int, j as int),
        decreases self.rows, 1nat,
    {
        let odd = (i % 2 == 0) != (j % 2 == 0);
        let sign = if odd {
            S::from_ratio(-1, 1)
        } else {
            S::from_ratio(1, 1)
        };
        sign.mul(self.minor(i, j))
    }

    pub fn determinant(&self) -> (r: S)
        requires
            self.wf(),
            self.cols == self.rows,
        ensures
            r == self@.determinant(),
        decreases self.rows, 2nat,
    {
        if self.rows == 2 {
            assert(self.x@.len() == 4) by (nonlinear_arith)
                requires
                    self.x@.len() == self.rows * self.cols,
                    self.rows == 2,
                    self.cols == 2,
            ;
            self.at(0, 0).mul(self.at(1, 1)).sub(self.at(0, 1).mul(self.at(1, 0)))
        } else {
            let mut det = S::from_ratio(0, 1);
            let mut column: usize = 0;
            while column < self.cols
                invariant
                    self.wf(),
                    self.cols == self.rows,
                    column <= self.cols,
                    det == self@.expansion(column as nat),
                decreases self.cols - column,
            {
                proof {
                    lemma_cell_index(0, column as int, self.rows as int, self.cols as int);
                }
                det = det.add(self.x[column].mul(self.cofactor(0, column)));
                column += 1;
            }
            det
        }
    }

    pub fn inverse(&self) -> (r: Option<Mat<S>>)
        requires
            self.wf(),
            self.cols == self.rows,
        ensures
            match r {
                None => self@.inverse().is_none(),
                Some(m) => m.wf() && self@.inverse() == Some(m@),
            },
            r.is_none() <==> self@.determinant().same(zero::<S>()),
            r.is_some() ==> forall|row: int, col: int|
                0 <= row < self.rows && 0 <= col < self.cols ==> #[trigger] r.unwrap()@.at(col, row)
                    == self@.cofactor(row, col).quotient(self@.determinant()),
    {
        let det = self.determinant();
        if is_zero(det) {
            None
        } else {
            let len = self.x.len();
            assert(self.cols * self.rows == self.rows * self.cols) by (nonlinear_arith);
            let total = self.cols * self.rows;
            let mut x: Vec<S> = Vec::new();
            let mut k: usize = 0;
            while k < total
                invariant
                    self.wf(),
                    self.cols == self.rows,
                    total == self.cols * self.rows,
                    det == self@.determinant(),
                    k <= total,
                    x@.len() == k,
                    forall|t: int|
                        0 <= t < k ==> x@[t] == self@.cofactor(
                            t % (self.rows as int),
                            t / (self.rows as int),
                        ).quotient(det),
                decreases total - k,
            {
                proof {
                    lemma_split_index(k as int, self.cols as int, self.rows as int);
                }
                let c = self.cofactor(k % self.rows, k / self.rows);
                x.push(c.div(det));
                k += 1;
            }
            let m = Mat { rows: self.cols, cols: self.rows, x };
            assert(m@.cells =~= self@.inverse().unwrap().cells);
            assert forall|row: int, col: int| 0 <= row < self.rows && 0 <= col < self.cols implies #[trigger] m@.at(
                col,
                row,
            ) == self@.cofactor(row, col).quotient(self@.determinant()) by {
                self@.lemma_inverse_cells(row, col);
            }
            Some(m)
        }
    }
}

} // verus!
