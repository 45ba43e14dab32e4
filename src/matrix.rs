use vstd::prelude::*;

verus! {

/// A dense row-major matrix of `rows` rows of `cols` entries each.
pub struct Matrix<T> {
    pub rows: usize,
    pub cols: usize,
    pub data: Vec<Vec<T>>,
}

/// Arithmetic on the entries of a matrix. Nothing is assumed of an
/// implementation: contracts speak of what a call of `T::plus`, `T::minus`,
/// `T::times` or `T::zero` may return (`call_ensures`), so they hold of every
/// implementation, and pin results down wherever the implementation is a
/// function of its arguments.
pub trait Scalar: Copy + Sized {
    fn zero() -> Self;

    fn plus(self, other: Self) -> Self;

    fn minus(self, other: Self) -> Self;

    fn times(self, other: Self) -> Self;
}

/// One step of a dot product: `sum + x * y`.
pub fn multiply_add<T: Scalar>(sum: T, x: T, y: T) -> (r: T)
    ensures
        exists|p: T| call_ensures(T::times, (x, y), p) && #[trigger] call_ensures(T::plus, (sum, p), r),
{
    let times = T::times;
    let plus = T::plus;
    let p = times(x, y);
    plus(sum, p)
}

/// The shapes of two operands that an operation could not combine.
#[derive(Clone, Copy, Debug, PartialEq, Eq)]
pub struct ShapeMismatch {
    pub left_rows: usize,
    pub left_cols: usize,
    pub right_rows: usize,
    pub right_cols: usize,
}

impl<T> View for Matrix<T> {
    type V = Seq<Seq<T>>;

    open spec fn view(&self) -> Seq<Seq<T>> {
        self.data@.map_values(|r: Vec<T>| r@)
    }
}

impl<T> Matrix<T> {
    /// Every row holds exactly `cols` entries and there are `rows` rows.
    pub open spec fn wf(&self) -> bool {
        &&& self.data@.len() == self.rows
        &&& forall|i: int| 0 <= i < self.rows ==> (#[trigger] self.data@[i])@.len() == self.cols
    }

    pub open spec fn same_shape(&self, other: &Matrix<T>) -> bool {
        self.rows == other.rows && self.cols == other.cols
    }
}

/// `r` holds `f` applied to each entry of `a`.
pub open spec fn mapped<T, F: Fn(T) -> T>(a: Matrix<T>, f: F, r: Matrix<T>) -> bool {
    &&& r.wf()
    &&& r.same_shape(&a)
    &&& forall|i: int, j: int|
        0 <= i < a.rows && 0 <= j < a.cols ==> f.ensures((a@[i][j],), #[trigger] r@[i][j])
}

/// `r` holds `f` applied to each pair of entries of `a` and `b` at the same place.
pub open spec fn zipped<T, F: Fn(T, T) -> T>(a: Matrix<T>, b: Matrix<T>, f: F, r: Matrix<T>) -> bool {
    &&& r.wf()
    &&& r.same_shape(&a)
    &&& forall|i: int, j: int|
        0 <= i < a.rows && 0 <= j < a.cols ==> f.ensures((a@[i][j], b@[i][j]), #[trigger] r@[i][j])
}

/// `r` holds each entry of `a` multiplied by `k`.
pub open spec fn scaled_by<T: Scalar>(a: Matrix<T>, k: T, r: Matrix<T>) -> bool {
    &&& r.wf()
    &&& r.same_shape(&a)
    &&& forall|i: int, j: int|
        0 <= i < a.rows && 0 <= j < a.cols ==> call_ensures(T::times, (a@[i][j], k), #[trigger] r@[i][j])
}

/// `r` is `a` with rows and columns exchanged.
pub open spec fn transposed<T>(a: Matrix<T>, r: Matrix<T>) -> bool {
    &&& r.wf()
    &&& r.rows == a.cols
    &&& r.cols == a.rows
    &&& forall|i: int, j: int| 0 <= i < a.cols && 0 <= j < a.rows ==> #[trigger] r@[i][j] == a@[j][i]
}

/// `acc` is the run of partial sums of row `i` of `a` against column `j` of `b`:
/// it starts at `zero`, and step `k` takes `acc[k]` to `acc[k + 1]` through
/// `step(acc[k], a[i][k], b[k][j])`.
pub open spec fn dot_run<T, F: Fn(T, T, T) -> T>(
    a: Matrix<T>,
    b: Matrix<T>,
    zero: T,
    step: F,
    i: int,
    j: int,
    acc: Seq<T>,
) -> bool {
    &&& acc.len() == a.cols + 1
    &&& acc[0] == zero
    &&& forall|k: int| 0 <= k < a.cols ==> step.ensures((acc[k], a@[i][k], b@[k][j]), #[trigger] acc[k + 1])
}

/// `v` is the sum over `k` of `a[i][k] * b[k][j]`, accumulated from `zero` by `step`.
pub open spec fn is_dot<T, F: Fn(T, T, T) -> T>(
    a: Matrix<T>,
    b: Matrix<T>,
    zero: T,
    step: F,
    i: int,
    j: int,
    v: T,
) -> bool {
    exists|acc: Seq<T>| #[trigger] dot_run(a, b, zero, step, i, j, acc) && acc.last() == v
}

/// `r` is the matrix product of `a` and `b`.
pub open spec fn product<T, F: Fn(T, T, T) -> T>(a: Matrix<T>, b: Matrix<T>, zero: T, step: F, r: Matrix<T>) -> bool {
    &&& r.wf()
    &&& r.rows == a.rows
    &&& r.cols == b.cols
    &&& forall|i: int, j: int|
        0 <= i < a.rows && 0 <= j < b.cols ==> is_dot(a, b, zero, step, i, j, #[trigger] r@[i][j])
}

/// `m` is a single column holding `s` from top to bottom.
pub open spec fn is_column<T>(m: Matrix<T>, s: Seq<T>) -> bool {
    &&& m.wf()
    &&& m.cols == 1
    &&& m.rows == s.len()
    &&& forall|i: int| 0 <= i < s.len() ==> #[trigger] m@[i][0] == s[i]
}

impl<T: Copy> Matrix<T> {
    /// A `rows` by `cols` matrix whose every entry is `zero`.
    pub fn zeros(rows: usize, cols: usize, zero: T) -> (r: Matrix<T>)
        ensures
            r.wf(),
            r.rows == rows,
            r.cols == cols,
            forall|i: int, j: int| 0 <= i < rows && 0 <= j < cols ==> #[trigger] r@[i][j] == zero,
    {
        let mut data: Vec<Vec<T>> = Vec::new();
        let mut i: usize = 0;
        while i < rows
            invariant
                i <= rows,
                data@.len() == i,
                forall|k: int| 0 <= k < i ==> (#[trigger] data@[k])@.len() == cols,
                forall|k: int, j: int| 0 <= k < i && 0 <= j < cols ==> #[trigger] data@[k]@[j] == zero,
            decreases rows - i,
        {
            let mut row: Vec<T> = Vec::new();
            let mut j: usize = 0;
            while j < cols
                invariant
                    j <= cols,
                    row@.len() == j,
                    forall|l: int| 0 <= l < j ==> #[trigger] row@[l] == zero,
                decreases cols - j,
            {
                row.push(zero);
                j = j + 1;
            }
            data.push(row);
            i = i + 1;
        }
        Matrix { rows, cols, data }
    }

    /// Wraps a grid of rows, which must all have the length of the first.
    pub fn from(data: Vec<Vec<T>>) -> (r: Matrix<T>)
        requires
            data@.len() >= 1,
            forall|i: int| 0 <= i < data@.len() ==> (#[trigger] data@[i])@.len() == data@[0]@.len(),
        ensures
            r.wf(),
            r.rows == data@.len(),
            r.cols == data@[0]@.len(),
            r.data@ == data@,
    {
        let rows = data.len();
        let cols = data[0].len();
        Matrix { rows, cols, data }
    }

    /// The entry in row `i` and column `j`.
    pub fn get(&self, i: usize, j: usize) -> (r: T)
        requires
            self.wf(),
            i < self.rows,
            j < self.cols,
        ensures
            r == self@[i as int][j as int],
    {
        self.data[i][j]
    }

    /// The transpose: `cols` rows of `rows` entries, with `r[j][i] == self[i][j]`.
    pub fn transpose(&self) -> (r: Matrix<T>)
        requires
            self.wf(),
        ensures
            transposed(*self, r),
    {
        let mut data: Vec<Vec<T>> = Vec::new();
        let mut i: usize = 0;
        while i < self.cols
            invariant
                self.wf(),
                i <= self.cols,
                data@.len() == i,
                forall|k: int| 0 <= k < i ==> (#[trigger] data@[k])@.len() == self.rows,
                forall|k: int, j: int|
                    0 <= k < i && 0 <= j < self.rows ==> #[trigger] data@[k]@[j] == self@[j][k],
            decreases self.cols - i,
        {
            let mut row: Vec<T> = Vec::new();
            let mut j: usize = 0;
            while j < self.rows
                invariant
                    self.wf(),
                    i < self.cols,
                    j <= self.rows,
                    row@.len() == j,
                    forall|l: int| 0 <= l < j ==> #[trigger] row@[l] == self@[l][i as int],
                decreases self.rows - j,
            {
                row.push(self.data[j][i]);
                j = j + 1;
            }
            data.push(row);
            i = i + 1;
        }
        Matrix { rows: self.cols, cols: self.rows, data }
    }

    /// Applies `f` to every entry; the shape is kept.
    pub fn map<F: Fn(T) -> T>(&self, f: F) -> (r: Matrix<T>)
        requires
            self.wf(),
            forall|x: T| #[trigger] f.requires((x,)),
        ensures
            mapped(*self, f, r),
    {
        let mut data: Vec<Vec<T>> = Vec::new();
        let mut i: usize = 0;
        while i < self.rows
            invariant
                self.wf(),
                forall|x: T| #[trigger] f.requires((x,)),
                i <= self.rows,
                data@.len() == i,
                forall|k: int| 0 <= k < i ==> (#[trigger] data@[k])@.len() == self.cols,
                forall|k: int, j: int|
                    0 <= k < i && 0 <= j < self.cols ==> f.ensures((self@[k][j],), #[trigger] data@[k]@[j]),
            decreases self.rows - i,
        {
            let mut row: Vec<T> = Vec::new();
            let mut j: usize = 0;
            while j < self.cols
                invariant
                    self.wf(),
                    forall|x: T| #[trigger] f.requires((x,)),
                    i < self.rows,
                    j <= self.cols,
                    row@.len() == j,
                    forall|l: int| 0 <= l < j ==> f.ensures((self@[i as int][l],), #[trigger] row@[l]),
                decreases self.cols - j,
            {
                let v = f(self.data[i][j]);
                row.push(v);
                j = j + 1;
            }
            data.push(row);
            i = i + 1;
        }
        Matrix { rows: self.rows, cols: self.cols, data }
    }
    /// Combines entries at the same place with `f`; both operands have one shape.
    pub(crate) fn combine<F: Fn(T, T) -> T>(&self, other: &Matrix<T>, f: F) -> (r: Matrix<T>)
        requires
            self.wf(),
            other.wf(),
            self.same_shape(other),
            forall|x: T, y: T| #[trigger] f.requires((x, y)),
        ensures
            zipped(*self, *other, f, r),
    {
        let mut data: Vec<Vec<T>> = Vec::new();
        let mut i: usize = 0;
        while i < self.rows
            invariant
                self.wf(),
                other.wf(),
                self.same_shape(other),
                forall|x: T, y: T| #[trigger] f.requires((x, y)),
                i <= self.rows,
                data@.len() == i,
                forall|k: int| 0 <= k < i ==> (#[trigger] data@[k])@.len() == self.cols,
                forall|k: int, j: int|
                    0 <= k < i && 0 <= j < self.cols ==> f.ensures(
                        (self@[k][j], other@[k][j]),
                        #[trigger] data@[k]@[j],
                    ),
            decreases self.rows - i,
        {
            let mut row: Vec<T> = Vec::new();
            let mut j: usize = 0;
            while j < self.cols
                invariant
                    self.wf(),
                    other.wf(),
                    self.same_shape(other),
                    forall|x: T, y: T| #[trigger] f.requires((x, y)),
                    i < self.rows,
                    j <= self.cols,
                    row@.len() == j,
                    forall|l: int|
                        0 <= l < j ==> f.ensures(
                            (self@[i as int][l], other@[i as int][l]),
                            #[trigger] row@[l],
                        ),
                decreases self.cols - j,
            {
                let v = f(self.data[i][j], other.data[i][j]);
                row.push(v);
                j = j + 1;
            }
            data.push(row);
            i = i + 1;
        }
        Matrix { rows: self.rows, cols: self.cols, data }
    }

    fn mismatch(&self, other: &Matrix<T>) -> (e: ShapeMismatch)
        ensures
            e == (ShapeMismatch {
                left_rows: self.rows,
                left_cols: self.cols,
                right_rows: other.rows,
                right_cols: other.cols,
            }),
    {
        ShapeMismatch {
            left_rows: self.rows,
            left_cols: self.cols,
            right_rows: other.rows,
            right_cols: other.cols,
        }
    }

    /// The element-wise combination of two matrices of one shape: `f` takes the
    /// entries of `self` and `other` at each place to the entry of the result
    /// there (sum, difference, element-wise product). Operands of different
    /// shapes give `ShapeMismatch`.
    pub fn zip_with<F: Fn(T, T) -> T>(&self, other: &Matrix<T>, f: F) -> (r: Result<Matrix<T>, ShapeMismatch>)
        requires
            self.wf(),
            other.wf(),
            forall|x: T, y: T| #[trigger] f.requires((x, y)),
        ensures
            r is Ok <==> self.same_shape(other),
            r matches Ok(m) ==> zipped(*self, *other, f, m),
            r matches Err(e) ==> e == (ShapeMismatch {
                left_rows: self.rows,
                left_cols: self.cols,
                right_rows: other.rows,
                right_cols: other.cols,
            }),
    {
        if self.rows != other.rows || self.cols != other.cols {
            return Err(self.mismatch(other));
        }
        Ok(self.combine(other, f))
    }

    /// One entry of the product: row `i` of `self` against column `j` of `other`.
    fn dot(&self, other: &Matrix<T>, zero: T, step: &impl Fn(T, T, T) -> T, i: usize, j: usize) -> (v: T)
        requires
            self.wf(),
            other.wf(),
            self.cols == other.rows,
            i < self.rows,
            j < other.cols,
            forall|s: T, x: T, y: T| #[trigger] step.requires((s, x, y)),
        ensures
            is_dot(*self, *other, zero, *step, i as int, j as int, v),
    {
        let mut sum = zero;
        let mut k: usize = 0;
        let ghost mut acc: Seq<T> = seq![zero];
        while k < self.cols
            invariant
                self.wf(),
                other.wf(),
                self.cols == other.rows,
                i < self.rows,
                j < other.cols,
                forall|s: T, x: T, y: T| #[trigger] step.requires((s, x, y)),
                k <= self.cols,
                acc.len() == k + 1,
                acc[0] == zero,
                acc.last() == sum,
                forall|l: int|
                    0 <= l < k ==> step.ensures(
                        (acc[l], self@[i as int][l], other@[l][j as int]),
                        #[trigger] acc[l + 1],
                    ),
            decreases self.cols - k,
        {
            sum = step(sum, self.data[i][k], other.data[k][j]);
            proof {
                acc = acc.push(sum);
            }
            k = k + 1;
        }
        assert(dot_run(*self, *other, zero, *step, i as int, j as int, acc));
        sum
    }

    pub(crate) fn matmul<F: Fn(T, T, T) -> T>(&self, other: &Matrix<T>, zero: T, step: F) -> (r: Matrix<T>)
        requires
            self.wf(),
            other.wf(),
            self.cols == other.rows,
            forall|s: T, x: T, y: T| #[trigger] step.requires((s, x, y)),
        ensures
            product(*self, *other, zero, step, r),
    {
        let mut data: Vec<Vec<T>> = Vec::new();
        let mut i: usize = 0;
        while i < self.rows
            invariant
                self.wf(),
                other.wf(),
                self.cols == other.rows,
                forall|s: T, x: T, y: T| #[trigger] step.requires((s, x, y)),
                i <= self.rows,
                data@.len() == i,
                forall|k: int| 0 <= k < i ==> (#[trigger] data@[k])@.len() == other.cols,
                forall|k: int, j: int|
                    0 <= k < i && 0 <= j < other.cols ==> is_dot(
                        *self,
                        *other,
                        zero,
                        step,
                        k,
                        j,
                        #[trigger] data@[k]@[j],
                    ),
            decreases self.rows - i,
        {
            let mut row: Vec<T> = Vec::new();
            let mut j: usize = 0;
            while j < other.cols
                invariant
                    self.wf(),
                    other.wf(),
                    self.cols == other.rows,
                    forall|s: T, x: T, y: T| #[trigger] step.requires((s, x, y)),
                    i < self.rows,
                    j <= other.cols,
                    row@.len() == j,
                    forall|l: int|
                        0 <= l < j ==> is_dot(*self, *other, zero, step, i as int, l, #[trigger] row@[l]),
                decreases other.cols - j,
            {
                let v = self.dot(other, zero, &step, i, j);
                row.push(v);
                j = j + 1;
            }
            data.push(row);
            i = i + 1;
        }
        Matrix { rows: self.rows, cols: other.cols, data }
    }

    /// The matrix product: entry `[i][j]` is the sum over `k` of
    /// `self[i][k] * other[k][j]`, accumulated from `zero` by
    /// `step(sum, self[i][k], other[k][j])`. Unless `self.cols == other.rows`
    /// the result is `ShapeMismatch`.
    pub fn multiply<F: Fn(T, T, T) -> T>(&self, other: &Matrix<T>, zero: T, step: F) -> (r: Result<Matrix<T>, ShapeMismatch>)
        requires
            self.wf(),
            other.wf(),
            forall|s: T, x: T, y: T| #[trigger] step.requires((s, x, y)),
        ensures
            r is Ok <==> self.cols == other.rows,
            r matches Ok(m) ==> product(*self, *other, zero, step, m),
            r matches Err(e) ==> e == (ShapeMismatch {
                left_rows: self.rows,
                left_cols: self.cols,
                right_rows: other.rows,
                right_cols: other.cols,
            }),
    {
        if self.cols != other.rows {
            return Err(self.mismatch(other));
        }
        Ok(self.matmul(other, zero, step))
    }
    /// A single-column matrix holding `values` from top to bottom.
    pub fn column(values: Vec<T>) -> (r: Matrix<T>)
        ensures
            is_column(r, values@),
    {
        let rows = values.len();
        let mut data: Vec<Vec<T>> = Vec::new();
        let mut i: usize = 0;
        while i < rows
            invariant
                rows == values@.len(),
                i <= rows,
                data@.len() == i,
                forall|k: int| 0 <= k < i ==> (#[trigger] data@[k])@ == seq![values@[k]],
            decreases rows - i,
        {
            let mut row: Vec<T> = Vec::new();
            row.push(values[i]);
            data.push(row);
            i = i + 1;
        }
        let r = Matrix { rows, cols: 1, data };
        assert forall|k: int| 0 <= k < rows implies #[trigger] r@[k][0] == values@[k] by {
            assert(data@[k]@ == seq![values@[k]]);
        }
        r
    }

    /// The entries of a single-column matrix, from top to bottom.
    pub fn column_values(&self) -> (v: Vec<T>)
        requires
            self.wf(),
            self.cols == 1,
        ensures
            is_column(*self, v@),
    {
        let mut v: Vec<T> = Vec::new();
        let mut i: usize = 0;
        while i < self.rows
            invariant
                self.wf(),
                self.cols == 1,
                i <= self.rows,
                v@.len() == i,
                forall|k: int| 0 <= k < i ==> #[trigger] v@[k] == self@[k][0],
            decreases self.rows - i,
        {
            v.push(self.data[i][0]);
            i = i + 1;
        }
        v
    }
}

impl<T: Scalar> Matrix<T> {
    /// The element-wise sum; operands of different shapes give `ShapeMismatch`.
    pub fn add(&self, other: &Matrix<T>) -> (r: Result<Matrix<T>, ShapeMismatch>)
        requires
            self.wf(),
            other.wf(),
        ensures
            r is Ok <==> self.same_shape(other),
            r matches Ok(m) ==> zipped(*self, *other, T::plus, m),
            r matches Err(e) ==> e == (ShapeMismatch {
                left_rows: self.rows,
                left_cols: self.cols,
                right_rows: other.rows,
                right_cols: other.cols,
            }),
    {
        self.zip_with(other, T::plus)
    }

    /// The element-wise difference; operands of different shapes give `ShapeMismatch`.
    pub fn subtract(&self, other: &Matrix<T>) -> (r: Result<Matrix<T>, ShapeMismatch>)
        requires
            self.wf(),
            other.wf(),
        ensures
            r is Ok <==> self.same_shape(other),
            r matches Ok(m) ==> zipped(*self, *other, T::minus, m),
            r matches Err(e) ==> e == (ShapeMismatch {
                left_rows: self.rows,
                left_cols: self.cols,
                right_rows: other.rows,
                right_cols: other.cols,
            }),
    {
        self.zip_with(other, T::minus)
    }

    /// The element-wise product; operands of different shapes give `ShapeMismatch`.
    pub fn dot_multiply(&self, other: &Matrix<T>) -> (r: Result<Matrix<T>, ShapeMismatch>)
        requires
            self.wf(),
            other.wf(),
        ensures
            r is Ok <==> self.same_shape(other),
            r matches Ok(m) ==> zipped(*self, *other, T::times, m),
            r matches Err(e) ==> e == (ShapeMismatch {
                left_rows: self.rows,
                left_cols: self.cols,
                right_rows: other.rows,
                right_cols: other.cols,
            }),
    {
        self.zip_with(other, T::times)
    }
    /// Multiplies every entry by `k`.
    pub fn scale(&self, k: T) -> (r: Matrix<T>)
        requires
            self.wf(),
        ensures
            scaled_by(*self, k, r),
    {
        let times = T::times;
        let mut data: Vec<Vec<T>> = Vec::new();
        let mut i: usize = 0;
        while i < self.rows
            invariant
                self.wf(),
                times == T::times,
                i <= self.rows,
                data@.len() == i,
                forall|l: int| 0 <= l < i ==> (#[trigger] data@[l])@.len() == self.cols,
                forall|l: int, j: int|
                    0 <= l < i && 0 <= j < self.cols ==> call_ensures(T::times, (self@[l][j], k), #[trigger] data@[l]@[j]),
            decreases self.rows - i,
        {
            let mut row: Vec<T> = Vec::new();
            let mut j: usize = 0;
            while j < self.cols
                invariant
                    self.wf(),
                    times == T::times,
                    i < self.rows,
                    j <= self.cols,
                    row@.len() == j,
                    forall|l: int| 0 <= l < j ==> call_ensures(T::times, (self@[i as int][l], k), #[trigger] row@[l]),
                decreases self.cols - j,
            {
                let v = times(self.data[i][j], k);
                row.push(v);
                j = j + 1;
            }
            data.push(row);
            i = i + 1;
        }
        Matrix { rows: self.rows, cols: self.cols, data }
    }
}

/// Transposing twice gives back the matrix it started from, shape and entries.
pub proof fn lemma_transpose_twice<T>(a: Matrix<T>, t: Matrix<T>, u: Matrix<T>)
    requires
        a.wf(),
        transposed(a, t),
        transposed(t, u),
    ensures
        u.rows == a.rows,
        u.cols == a.cols,
        u@ == a@,
{
    assert forall|i: int| 0 <= i < a.rows implies #[trigger] u@[i] == a@[i] by {
        assert(u@[i] =~= a@[i]);
    }
    assert(u@ =~= a@);
}

/// Mapping a function that returns its argument leaves the matrix as it was.
pub proof fn lemma_map_identity<T, F: Fn(T) -> T>(a: Matrix<T>, f: F, r: Matrix<T>)
    requires
        a.wf(),
        forall|x: T, y: T| f.ensures((x,), y) ==> y == x,
        mapped(a, f, r),
    ensures
        r.rows == a.rows,
        r.cols == a.cols,
        r@ == a@,
{
    assert forall|i: int| 0 <= i < a.rows implies #[trigger] r@[i] == a@[i] by {
        assert(r@[i] =~= a@[i]);
    }
    assert(r@ =~= a@);
}

/// `a` and `b` have one shape and the same entries.
pub open spec fn same<T>(a: Matrix<T>, b: Matrix<T>) -> bool {
    a.rows == b.rows && a.cols == b.cols && a@ == b@
}

/// `f` gives at most one result for each argument.
pub open spec fn unique1<T, F: Fn(T) -> T>(f: F) -> bool {
    forall|x: T, r1: T, r2: T| #[trigger] f.ensures((x,), r1) && #[trigger] f.ensures((x,), r2) ==> r1 == r2
}

/// `f` gives at most one result for each pair of arguments.
pub open spec fn unique2<T, F: Fn(T, T) -> T>(f: F) -> bool {
    forall|x: T, y: T, r1: T, r2: T|
        #[trigger] f.ensures((x, y), r1) && #[trigger] f.ensures((x, y), r2) ==> r1 == r2
}

/// `f` gives at most one result for each triple of arguments.
pub open spec fn unique3<T, F: Fn(T, T, T) -> T>(f: F) -> bool {
    forall|s: T, x: T, y: T, r1: T, r2: T|
        #[trigger] f.ensures((s, x, y), r1) && #[trigger] f.ensures((s, x, y), r2) ==> r1 == r2
}

proof fn lemma_same_by_entries<T>(a: Matrix<T>, b: Matrix<T>)
    requires
        a.wf(),
        b.wf(),
        a.rows == b.rows,
        a.cols == b.cols,
        forall|i: int, j: int| 0 <= i < a.rows && 0 <= j < a.cols ==> #[trigger] a@[i][j] == b@[i][j],
    ensures
        same(a, b),
{
    assert forall|i: int| 0 <= i < a.rows implies #[trigger] a@[i] == b@[i] by {
        assert(a@[i] =~= b@[i]);
    }
    assert(a@ =~= b@);
}

/// Mapping a function of its argument over matrices with the same entries
/// gives matrices with the same entries.
pub proof fn lemma_mapped_unique<T, F: Fn(T) -> T>(a1: Matrix<T>, a2: Matrix<T>, f: F, r1: Matrix<T>, r2: Matrix<T>)
    requires
        a1.wf(),
        same(a1, a2),
        unique1(f),
        mapped(a1, f, r1),
        mapped(a2, f, r2),
    ensures
        same(r1, r2),
{
    assert forall|i: int, j: int| 0 <= i < r1.rows && 0 <= j < r1.cols implies #[trigger] r1@[i][j] == r2@[i][j] by {
        assert(f.ensures((a1@[i][j],), r1@[i][j]));
        assert(f.ensures((a1@[i][j],), r2@[i][j]));
    }
    lemma_same_by_entries(r1, r2);
}

/// Combining, by a function of its arguments, matrices with the same entries
/// gives matrices with the same entries.
pub proof fn lemma_zipped_unique<T, F: Fn(T, T) -> T>(
    a1: Matrix<T>,
    a2: Matrix<T>,
    b1: Matrix<T>,
    b2: Matrix<T>,
    f: F,
    r1: Matrix<T>,
    r2: Matrix<T>,
)
    requires
        a1.wf(),
        same(a1, a2),
        same(b1, b2),
        unique2(f),
        zipped(a1, b1, f, r1),
        zipped(a2, b2, f, r2),
    ensures
        same(r1, r2),
{
    assert forall|i: int, j: int| 0 <= i < r1.rows && 0 <= j < r1.cols implies #[trigger] r1@[i][j] == r2@[i][j] by {
        assert(f.ensures((a1@[i][j], b1@[i][j]), r1@[i][j]));
        assert(f.ensures((a1@[i][j], b1@[i][j]), r2@[i][j]));
    }
    lemma_same_by_entries(r1, r2);
}

/// Transposes of matrices with the same entries have the same entries.
pub proof fn lemma_transposed_unique<T>(a1: Matrix<T>, a2: Matrix<T>, r1: Matrix<T>, r2: Matrix<T>)
    requires
        a1.wf(),
        same(a1, a2),
        transposed(a1, r1),
        transposed(a2, r2),
    ensures
        same(r1, r2),
{
    assert forall|i: int, j: int| 0 <= i < r1.rows && 0 <= j < r1.cols implies #[trigger] r1@[i][j] == r2@[i][j] by {
        assert(r1@[i][j] == a1@[j][i]);
        assert(r2@[i][j] == a2@[j][i]);
    }
    lemma_same_by_entries(r1, r2);
}

proof fn lemma_runs_agree<T, F: Fn(T, T, T) -> T>(
    a1: Matrix<T>,
    a2: Matrix<T>,
    b1: Matrix<T>,
    b2: Matrix<T>,
    zero: T,
    step: F,
    i: int,
    j: int,
    acc1: Seq<T>,
    acc2: Seq<T>,
    k: int,
)
    requires
        same(a1, a2),
        same(b1, b2),
        unique3(step),
        dot_run(a1, b1, zero, step, i, j, acc1),
        dot_run(a2, b2, zero, step, i, j, acc2),
        0 <= k <= a1.cols,
    ensures
        acc1[k] == acc2[k],
    decreases k,
{
    if k > 0 {
        lemma_runs_agree(a1, a2, b1, b2, zero, step, i, j, acc1, acc2, k - 1);
        let l = k - 1;
        assert(step.ensures((acc1[l], a1@[i][l], b1@[l][j]), acc1[l + 1]));
        assert(step.ensures((acc2[l], a2@[i][l], b2@[l][j]), acc2[l + 1]));
    }
}

/// Products, accumulated by a function of its arguments from one zero, of
/// matrices with the same entries have the same entries.
pub proof fn lemma_product_unique<T, F: Fn(T, T, T) -> T>(
    a1: Matrix<T>,
    a2: Matrix<T>,
    b1: Matrix<T>,
    b2: Matrix<T>,
    zero: T,
    step: F,
    r1: Matrix<T>,
    r2: Matrix<T>,
)
    requires
        same(a1, a2),
        same(b1, b2),
        unique3(step),
        product(a1, b1, zero, step, r1),
        product(a2, b2, zero, step, r2),
    ensures
        same(r1, r2),
{
    assert forall|i: int, j: int| 0 <= i < r1.rows && 0 <= j < r1.cols implies #[trigger] r1@[i][j] == r2@[i][j] by {
        assert(is_dot(a1, b1, zero, step, i, j, r1@[i][j]));
        assert(is_dot(a2, b2, zero, step, i, j, r2@[i][j]));
        let acc1 = choose|acc: Seq<T>| #[trigger] dot_run(a1, b1, zero, step, i, j, acc) && acc.last() == r1@[i][j];
        let acc2 = choose|acc: Seq<T>| #[trigger] dot_run(a2, b2, zero, step, i, j, acc) && acc.last() == r2@[i][j];
        lemma_runs_agree(a1, a2, b1, b2, zero, step, i, j, acc1, acc2, a1.cols as int);
    }
    lemma_same_by_entries(r1, r2);
}

} // verus!
