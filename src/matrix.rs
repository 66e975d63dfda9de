use vstd::prelude::*;

verus! {

/// The ways a multiplication can fail.
#[derive(Debug, Clone, Copy, PartialEq, Eq, Structural)]
pub enum MultiplyError {
    /// The operands do not have matching dimensions.
    DimensionMismatch,
    /// A reply channel closed before it produced a value.
    WorkerFailure,
    /// A task could not be handed to a worker.
    DispatchFailure,
}

/// A dense matrix stored in row-major order: the cell at row `i` and
/// column `j` is `data[i * col + j]`.
pub struct Matrix {
    pub data: Vec<i64>,
    pub row: usize,
    pub col: usize,
}

/// Whether an integer fits in an `i64`.
pub open spec fn in_i64(x: int) -> bool {
    i64::MIN <= x <= i64::MAX
}

/// The sum of `a[k] * b[k]` over the first `n` positions.
pub open spec fn dot_prefix(a: Seq<i64>, b: Seq<i64>, n: nat) -> int
    decreases n,
{
    if n == 0 {
        0
    } else {
        dot_prefix(a, b, (n - 1) as nat) + a[n - 1] * b[n - 1]
    }
}

/// The dot product of two sequences of equal length.
pub open spec fn dot(a: Seq<i64>, b: Seq<i64>) -> int {
    dot_prefix(a, b, a.len())
}

/// Whether accumulating the dot product of `a` and `b` in `i64`, one
/// product at a time, stays in range.
pub open spec fn dot_fits(a: Seq<i64>, b: Seq<i64>) -> bool {
    forall|n: nat| 1 <= n <= a.len() ==> #[trigger] step_fits(a, b, n)
}

/// Whether the `n`-th product of the dot product of `a` and `b`, and the
/// running sum after adding it, fit in `i64`.
pub open spec fn step_fits(a: Seq<i64>, b: Seq<i64>, n: nat) -> bool {
    in_i64(a[n - 1] * b[n - 1]) && in_i64(dot_prefix(a, b, n))
}

impl Matrix {
    /// The stored data has exactly one value per cell.
    pub open spec fn wf(&self) -> bool {
        self.data@.len() == self.row * self.col
    }

    /// Builds a matrix from its cells in row-major order.
    /// Nothing is checked here: data of another length than `row * col`
    /// gives a matrix that is not well formed, which no operation accepts.
    pub fn new(data: Vec<i64>, row: usize, col: usize) -> (r: Matrix)
        ensures
            data@.len() == row * col ==> r.wf(),
            r.data@ == data@,
            r.row == row,
            r.col == col,
    {
        Matrix { data, row, col }
    }
}

/// The dot product of `a` and `b`, or `None` when accumulating it in `i64`
/// would overflow.
pub fn checked_dot(a: &Vec<i64>, b: &Vec<i64>) -> (r: Option<i64>)
    requires
        a@.len() == b@.len(),
    ensures
        r is Some <==> dot_fits(a@, b@),
        r matches Some(v) ==> v == dot(a@, b@),
{
    let mut sum: i64 = 0;
    let mut i: usize = 0;
    while i < a.len()
        invariant
            a@.len() == b@.len(),
            i <= a@.len(),
            sum == dot_prefix(a@, b@, i as nat),
            forall|n: nat| 1 <= n <= i ==> #[trigger] step_fits(a@, b@, n),
        decreases a@.len() - i,
    {
        let p = match a[i].checked_mul(b[i]) {
            Some(p) => p,
            None => {
                proof {
                    let n = (i + 1) as nat;
                    assert(!step_fits(a@, b@, n));
                }
                return None;
            },
        };
        sum = match sum.checked_add(p) {
            Some(s) => s,
            None => {
                proof {
                    let n = (i + 1) as nat;
                    assert(!step_fits(a@, b@, n));
                }
                return None;
            },
        };
        proof {
            let n = (i + 1) as nat;
            assert(step_fits(a@, b@, n));
        }
        i = i + 1;
    }
    Some(sum)
}

/// The dot product of `a` and `b`, which must have the same length.
pub fn dot_product(a: Vec<i64>, b: Vec<i64>) -> (r: Result<i64, MultiplyError>)
    requires
        a@.len() == b@.len() ==> dot_fits(a@, b@),
    ensures
        r is Err <==> a@.len() != b@.len(),
        r is Err ==> r == Err::<i64, MultiplyError>(MultiplyError::DimensionMismatch),
        r matches Ok(v) ==> v == dot(a@, b@),
{
    if a.len() != b.len() {
        return Err(MultiplyError::DimensionMismatch);
    }
    match checked_dot(&a, &b) {
        Some(v) => Ok(v),
        None => vstd::pervasive::unreached(),
    }
}

/// Row `i` of `m`, from left to right.
pub open spec fn row_of(m: Matrix, i: int) -> Seq<i64> {
    m.data@.subrange(i * m.col, i * m.col + m.col)
}

/// Column `j` of `m`, from top to bottom.
pub open spec fn col_of(m: Matrix, j: int) -> Seq<i64> {
    Seq::new(m.row as nat, |r: int| m.data@[r * m.col + j])
}

/// The value of the product `a * b` at flat index `k = i * b.col + j`.
pub open spec fn product_cell(a: Matrix, b: Matrix, k: int) -> int {
    dot(row_of(a, k / b.col as int), col_of(b, k % b.col as int))
}

/// Whether every cell of `a * b` can be computed in `i64`.
pub open spec fn product_fits(a: Matrix, b: Matrix) -> bool {
    forall|i: int, j: int|
        0 <= i < a.row && 0 <= j < b.col ==> #[trigger] dot_fits(row_of(a, i), col_of(b, j))
}

/// Whether `r` is the product `a * b`.
pub open spec fn is_product(r: Matrix, a: Matrix, b: Matrix) -> bool {
    &&& r.row == a.row
    &&& r.col == b.col
    &&& r.wf()
    &&& forall|k: int| 0 <= k < r.data@.len() ==> #[trigger] r.data@[k] == product_cell(a, b, k)
}

/// Facts on the flat index `i * cols + j` of a cell.
pub proof fn lemma_cell_index(i: int, j: int, rows: int, cols: int)
    requires
        0 <= i < rows,
        0 <= j < cols,
    ensures
        0 <= i * cols,
        i * cols + j < rows * cols,
        i * cols + cols <= rows * cols,
        (i * cols + j) / cols == i,
        (i * cols + j) % cols == j,
{
    assert(0 <= i * cols + j < rows * cols && i * cols + cols <= rows * cols) by (nonlinear_arith)
        requires
            0 <= i < rows,
            0 <= j < cols,
    ;
    vstd::arithmetic::div_mod::lemma_fundamental_div_mod_converse(i * cols + j, cols, i, j);
}

/// Row `i` of a matrix with `cols` columns lies inside its `rows * cols` cells.
pub proof fn lemma_row_bounds(i: int, rows: int, cols: int)
    requires
        0 <= i < rows,
        0 <= cols,
    ensures
        0 <= i * cols,
        i * cols + cols <= rows * cols,
{
    assert(0 <= i * cols && i * cols + cols <= rows * cols) by (nonlinear_arith)
        requires
            0 <= i < rows,
            0 <= cols,
    ;
}

/// Copies row `i` of `m`.
pub fn row_vec(m: &Matrix, i: usize) -> (r: Vec<i64>)
    requires
        m.wf(),
        i < m.row,
    ensures
        r@ == row_of(*m, i as int),
        r@.len() == m.col,
{
    proof {
        lemma_row_bounds(i as int, m.row as int, m.col as int);
    }
    let n = m.data.len();
    let start = i * m.col;
    let mut r: Vec<i64> = Vec::new();
    let mut k: usize = 0;
    while k < m.col
        invariant
            m.wf(),
            start == i * m.col,
            start + m.col <= m.data@.len(),
            n == m.data@.len(),
            k <= m.col,
            r@ == m.data@.subrange(start as int, start + k),
        decreases m.col - k,
    {
        r.push(m.data[start + k]);
        k = k + 1;
    }
    r
}

/// Copies column `j` of `m`.
pub fn col_vec(m: &Matrix, j: usize) -> (r: Vec<i64>)
    requires
        m.wf(),
        j < m.col,
    ensures
        r@ == col_of(*m, j as int),
        r@.len() == m.row,
{
    let n = m.data.len();
    let mut r: Vec<i64> = Vec::new();
    let mut k: usize = 0;
    while k < m.row
        invariant
            m.wf(),
            j < m.col,
            k <= m.row,
            n == m.data@.len(),
            r@ == Seq::new(k as nat, |t: int| m.data@[t * m.col + j]),
        decreases m.row - k,
    {
        proof {
            lemma_cell_index(k as int, j as int, m.row as int, m.col as int);
        }
        r.push(m.data[k * m.col + j]);
        k = k + 1;
    }
    r
}

/// The product `a * b`, computed cell by cell on the calling thread.
pub fn multiply(a: &Matrix, b: &Matrix) -> (r: Result<Matrix, MultiplyError>)
    requires
        a.wf(),
        b.wf(),
        a.col == b.row ==> product_fits(*a, *b),
    ensures
        r is Err <==> a.col != b.row,
        r is Err ==> r == Err::<Matrix, MultiplyError>(MultiplyError::DimensionMismatch),
        r matches Ok(m) ==> is_product(m, *a, *b),
{
    if a.col != b.row {
        return Err(MultiplyError::DimensionMismatch);
    }
    let mut data: Vec<i64> = Vec::new();
    let mut i: usize = 0;
    while i < a.row
        invariant
            a.wf(),
            b.wf(),
            a.col == b.row,
            product_fits(*a, *b),
            i <= a.row,
            data@.len() == i * b.col,
            forall|k: int| 0 <= k < data@.len() ==> #[trigger] data@[k] == product_cell(*a, *b, k),
        decreases a.row - i,
    {
        let mut j: usize = 0;
        while j < b.col
            invariant
                a.wf(),
                b.wf(),
                a.col == b.row,
                product_fits(*a, *b),
                i < a.row,
                j <= b.col,
                data@.len() == i * b.col + j,
                forall|k: int| 0 <= k < data@.len() ==> #[trigger] data@[k] == product_cell(*a, *b, k),
            decreases b.col - j,
        {
            proof {
                lemma_cell_index(i as int, j as int, a.row as int, b.col as int);
            }
            let row = row_vec(a, i);
            let col = col_vec(b, j);
            assert(dot_fits(row_of(*a, i as int), col_of(*b, j as int)));
            let v = dot_product(row, col);
            match v {
                Ok(x) => data.push(x),
                Err(e) => return Err(e),
            }
            j = j + 1;
        }
        proof {
            assert((i + 1) * b.col == i * b.col + b.col) by (nonlinear_arith);
        }
        i = i + 1;
    }
    Ok(Matrix { data, row: a.row, col: b.col })
}

/// Whether `m` is the `n` by `n` identity matrix.
pub open spec fn is_identity(m: Matrix, n: nat) -> bool {
    &&& m.row == n
    &&& m.col == n
    &&& m.wf()
    &&& forall|k: int|
        0 <= k < n * n ==> #[trigger] m.data@[k] == (if k / n as int == k % n as int {
            1i64
        } else {
            0i64
        })
}

/// Whether `e` has a one at position `j` and zeros elsewhere.
pub open spec fn is_unit(e: Seq<i64>, j: int) -> bool {
    forall|r: int| 0 <= r < e.len() ==> #[trigger] e[r] == (if r == j { 1i64 } else { 0i64 })
}

/// Against a unit vector, each prefix of the dot product is either zero or
/// the selected entry.
proof fn lemma_dot_unit_prefix(x: Seq<i64>, e: Seq<i64>, j: int, n: nat)
    requires
        x.len() == e.len(),
        0 <= j < x.len(),
        n <= x.len(),
        is_unit(e, j),
    ensures
        dot_prefix(x, e, n) == (if n > j { x[j] as int } else { 0 }),
        dot_prefix(e, x, n) == (if n > j { x[j] as int } else { 0 }),
        forall|t: nat| 1 <= t <= n ==> #[trigger] step_fits(x, e, t),
        forall|t: nat| 1 <= t <= n ==> #[trigger] step_fits(e, x, t),
    decreases n,
{
    if n > 0 {
        lemma_dot_unit_prefix(x, e, j, (n - 1) as nat);
        let r = n - 1;
        assert(e[r] == (if r == j { 1i64 } else { 0i64 }));
        assert(x[r] * 1 == x[r]) by (nonlinear_arith);
        assert(x[r] * 0 == 0) by (nonlinear_arith);
        assert(step_fits(x, e, n) && step_fits(e, x, n));
    }
}

/// The dot product with a unit vector selects one entry, and never
/// overflows.
pub proof fn lemma_dot_unit(x: Seq<i64>, e: Seq<i64>, j: int)
    requires
        x.len() == e.len(),
        0 <= j < x.len(),
        is_unit(e, j),
    ensures
        dot(x, e) == x[j],
        dot(e, x) == x[j],
        dot_fits(x, e),
        dot_fits(e, x),
{
    lemma_dot_unit_prefix(x, e, j, x.len());
}

/// Multiplying by an identity matrix of matching size, on either side, can
/// be computed without overflow and gives back the original matrix.
pub proof fn lemma_identity_round_trip(a: Matrix, left: Matrix, right: Matrix)
    requires
        a.wf(),
        is_identity(left, a.row as nat),
        is_identity(right, a.col as nat),
    ensures
        product_fits(a, right),
        product_fits(left, a),
        forall|m: Matrix|
            #[trigger] is_product(m, a, right) ==> m.row == a.row && m.col == a.col && m.data@
                == a.data@,
        forall|m: Matrix|
            #[trigger] is_product(m, left, a) ==> m.row == a.row && m.col == a.col && m.data@
                == a.data@,
{
    let rows = a.row as int;
    let cols = a.col as int;
    assert forall|i: int, j: int| 0 <= i < rows && 0 <= j < cols implies dot(
        row_of(a, i),
        col_of(right, j),
    ) == a.data@[i * cols + j] && dot_fits(row_of(a, i), col_of(right, j)) by {
        lemma_cell_index(i, j, rows, cols);
        assert forall|r: int| 0 <= r < cols implies #[trigger] col_of(right, j)[r] == (if r == j {
            1i64
        } else {
            0i64
        }) by {
            lemma_cell_index(r, j, cols, cols);
        }
        lemma_dot_unit(row_of(a, i), col_of(right, j), j);
    }
    assert forall|i: int, j: int| 0 <= i < rows && 0 <= j < cols implies dot(
        row_of(left, i),
        col_of(a, j),
    ) == a.data@[i * cols + j] && dot_fits(row_of(left, i), col_of(a, j)) by {
        lemma_cell_index(i, j, rows, cols);
        lemma_row_bounds(i, rows, rows);
        assert forall|r: int| 0 <= r < rows implies #[trigger] row_of(left, i)[r] == (if r == i {
            1i64
        } else {
            0i64
        }) by {
            lemma_cell_index(i, r, rows, rows);
        }
        lemma_cell_index(i, j, rows, cols);
        lemma_dot_unit(col_of(a, j), row_of(left, i), i);
    }
    assert forall|m: Matrix| #[trigger] is_product(m, a, right) implies m.row == a.row && m.col
        == a.col && m.data@ == a.data@ by {
        assert forall|k: int| 0 <= k < m.data@.len() implies m.data@[k] == a.data@[k] by {
            let i = k / cols;
            let j = k % cols;
            vstd::arithmetic::div_mod::lemma_fundamental_div_mod(k, cols);
            assert(0 <= i < rows && 0 <= j < cols) by (nonlinear_arith)
                requires
                    0 <= k < rows * cols,
                    i == k / cols,
                    j == k % cols,
                    k == cols * i + j,
                    cols > 0,
            {
            }
            assert(m.data@[k] == product_cell(a, right, k));
        }
        assert(m.data@ =~= a.data@);
    }
    assert forall|m: Matrix| #[trigger] is_product(m, left, a) implies m.row == a.row && m.col
        == a.col && m.data@ == a.data@ by {
        assert forall|k: int| 0 <= k < m.data@.len() implies m.data@[k] == a.data@[k] by {
            let i = k / cols;
            let j = k % cols;
            vstd::arithmetic::div_mod::lemma_fundamental_div_mod(k, cols);
            assert(0 <= i < rows && 0 <= j < cols) by (nonlinear_arith)
                requires
                    0 <= k < rows * cols,
                    i == k / cols,
                    j == k % cols,
                    k == cols * i + j,
                    cols > 0,
            {
            }
            assert(m.data@[k] == product_cell(left, a, k));
        }
        assert(m.data@ =~= a.data@);
    }
}

} // verus!
