//! Square matrices of size up to 4, as storage and index algebra: building
//! row by row, reading and writing entries, transposing, and taking the
//! submatrix without one row and one column. The entry type is left open;
//! the arithmetic on entries belongs to the code that picks it.

use vstd::prelude::*;

verus! {

/// Largest size of a matrix.
pub const MAX_SIZE: usize = 4;

/// A `size` by `size` matrix, stored row after row.
#[derive(Clone, Debug, PartialEq)]
pub struct Matrix<T> {
    size: usize,
    data: Vec<T>,
}

/// Builds a matrix one row at a time.
#[derive(Debug)]
pub struct MatrixBuilder<T> {
    current_row: usize,
    size: usize,
    data: Vec<T>,
}

/// Index `a` of the submatrix without line `k` is index `skip(a, k)` of the
/// whole matrix.
pub open spec fn skip(a: int, k: int) -> int {
    if a < k {
        a
    } else {
        a + 1
    }
}

proof fn lemma_index_in_range(i: int, j: int, n: int)
    requires
        0 <= i < n,
        0 <= j < n,
        n <= MAX_SIZE,
    ensures
        0 <= i * n + j < n * n,
        n * n <= MAX_SIZE * MAX_SIZE,
{
    assert(0 <= i * n + j < n * n) by (nonlinear_arith)
        requires
            0 <= i < n,
            0 <= j < n,
    ;
    assert(n * n <= 4 * 4) by (nonlinear_arith)
        requires
            0 <= n <= 4,
    ;
}

/// Entry (`a`, `b`) comes before row `i` starts.
proof fn lemma_before_row(a: int, b: int, i: int, n: int)
    requires
        0 <= a < i,
        0 <= b < n,
    ensures
        0 <= a * n + b < i * n,
{
    assert(0 <= a * n + b < i * n) by (nonlinear_arith)
        requires
            0 <= a < i,
            0 <= b < n,
    ;
}

proof fn lemma_index_unique(i: int, j: int, a: int, b: int, n: int)
    requires
        0 <= j < n,
        0 <= b < n,
        i * n + j == a * n + b,
    ensures
        i == a,
        j == b,
{
    if i < a {
        assert(i * n + n <= a * n) by (nonlinear_arith)
            requires
                i < a,
                0 <= n,
        ;
    } else if a < i {
        assert(a * n + n <= i * n) by (nonlinear_arith)
            requires
                a < i,
                0 <= n,
        ;
    }
}

impl<T: Copy> Matrix<T> {
    pub closed spec fn spec_size(&self) -> nat {
        self.size as nat
    }

    /// The entry in row `i`, column `j`.
    pub closed spec fn entry(&self, i: int, j: int) -> T {
        self.data@[i * self.size + j]
    }

    pub closed spec fn wf(&self) -> bool {
        &&& self.size <= MAX_SIZE
        &&& self.data@.len() == self.size * self.size
    }

    /// The matrix of the given size whose rows, one after the other, are
    /// `data`.
    pub fn new(size: usize, data: Vec<T>) -> (m: Self)
        requires
            size <= MAX_SIZE,
            data@.len() == size * size,
        ensures
            m.wf(),
            m.spec_size() == size,
            forall|i: int, j: int|
                0 <= i < size && 0 <= j < size ==> #[trigger] m.entry(i, j) == data@[i * size
                    + j],
    {
        Matrix { size, data }
    }

    pub fn size(&self) -> (r: usize)
        ensures
            r == self.spec_size(),
    {
        self.size
    }

    /// Whether row `i` and column `j` lie in the matrix.
    pub fn in_bounds(&self, i: usize, j: usize) -> (r: bool)
        ensures
            r == (i < self.spec_size() && j < self.spec_size()),
    {
        i < self.size && j < self.size
    }

    fn idx(&self, i: usize, j: usize) -> (r: usize)
        requires
            self.wf(),
            i < self.spec_size(),
            j < self.spec_size(),
        ensures
            r == i * self.spec_size() + j,
            r < self.data@.len(),
    {
        proof {
            lemma_index_in_range(i as int, j as int, self.size as int);
        }
        i * self.size + j
    }

    /// The entry in row `i`, column `j`.
    pub fn at(&self, i: usize, j: usize) -> (r: T)
        requires
            self.wf(),
            i < self.spec_size(),
            j < self.spec_size(),
        ensures
            r == self.entry(i as int, j as int),
    {
        let k = self.idx(i, j);
        self.data[k]
    }

    /// Sets the entry in row `i`, column `j`; every other entry stays.
    pub fn set(&mut self, i: usize, j: usize, v: T)
        requires
            old(self).wf(),
            i < old(self).spec_size(),
            j < old(self).spec_size(),
        ensures
            final(self).wf(),
            final(self).spec_size() == old(self).spec_size(),
            final(self).entry(i as int, j as int) == v,
            forall|a: int, b: int|
                0 <= a < old(self).spec_size() && 0 <= b < old(self).spec_size() && (a != i || b
                    != j) ==> #[trigger] final(self).entry(a, b) == old(self).entry(a, b),
    {
        let k = self.idx(i, j);
        let ghost before = *self;
        self.data.set(k, v);
        proof {
            assert forall|a: int, b: int|
                0 <= a < self.size && 0 <= b < self.size && (a != i || b != j) implies
                #[trigger] self.entry(a, b) == before.entry(a, b) by {
                lemma_index_in_range(a, b, self.size as int);
                if a * self.size + b == k {
                    lemma_index_unique(a, b, i as int, j as int, self.size as int);
                }
            }
        }
    }

    /// The transpose: row `i`, column `j` holds row `j`, column `i` of this.
    pub fn transposed(&self) -> (m: Self)
        requires
            self.wf(),
        ensures
            m.wf(),
            m.spec_size() == self.spec_size(),
            forall|i: int, j: int|
                0 <= i < self.spec_size() && 0 <= j < self.spec_size() ==> #[trigger] m.entry(
                    i,
                    j,
                ) == self.entry(j, i),
    {
        let n = self.size;
        let mut data: Vec<T> = Vec::new();
        let mut i: usize = 0;
        while i < n
            invariant
                self.wf(),
                n == self.spec_size(),
                i <= n,
                data@.len() == i * n,
                forall|a: int, b: int|
                    0 <= a < i && 0 <= b < n ==> #[trigger] data@[a * n + b] == self.entry(b, a),
            decreases n - i,
        {
            let mut j: usize = 0;
            while j < n
                invariant
                    self.wf(),
                    n == self.spec_size(),
                    i < n,
                    j <= n,
                    data@.len() == i * n + j,
                    forall|a: int, b: int|
                        0 <= a < i && 0 <= b < n ==> #[trigger] data@[a * n + b] == self.entry(
                            b,
                            a,
                        ),
                    forall|b: int| 0 <= b < j ==> #[trigger] data@[i * n + b] == self.entry(b, i as int),
                decreases n - j,
            {
                proof {
                    lemma_index_in_range(i as int, j as int, n as int);
                }
                let v = self.at(j, i);
                let ghost prev = data@;
                data.push(v);
                proof {
                    assert forall|a: int, b: int| 0 <= a < i && 0 <= b < n implies #[trigger] data@[a
                        * n + b] == self.entry(b, a) by {
                        lemma_before_row(a, b, i as int, n as int);
                        assert(prev[a * n + b] == self.entry(b, a));
                    }
                    assert forall|b: int| 0 <= b < j + 1 implies #[trigger] data@[i * n + b]
                        == self.entry(b, i as int) by {
                        if b < j {
                            assert(prev[i * n + b] == self.entry(b, i as int));
                        }
                    }
                }
                j = j + 1;
            }
            proof {
                assert((i + 1) * n == i * n + n) by (nonlinear_arith);
                assert forall|a: int, b: int|
                    0 <= a < i + 1 && 0 <= b < n implies #[trigger] data@[a * n + b]
                    == self.entry(b, a) by {
                    if a == i {
                    }
                }
            }
            i = i + 1;
        }
        proof {
            assert(n * n == i * n);
        }
        Matrix { size: n, data }
    }

    /// The matrix without row `i` and column `j`.
    pub fn submatrix(&self, i: usize, j: usize) -> (m: Self)
        requires
            self.wf(),
            i < self.spec_size(),
            j < self.spec_size(),
        ensures
            m.wf(),
            m.spec_size() == self.spec_size() - 1,
            forall|a: int, b: int|
                0 <= a < m.spec_size() && 0 <= b < m.spec_size() ==> #[trigger] m.entry(a, b)
                    == self.entry(skip(a, i as int), skip(b, j as int)),
    {
        let n = self.size;
        let k = (n - 1) as usize;
        let mut data: Vec<T> = Vec::new();
        let mut a: usize = 0;
        while a < k
            invariant
                self.wf(),
                n == self.spec_size(),
                k == n - 1,
                i < n,
                j < n,
                a <= k,
                data@.len() == a * k,
                forall|x: int, y: int|
                    0 <= x < a && 0 <= y < k ==> #[trigger] data@[x * k + y] == self.entry(
                        skip(x, i as int),
                        skip(y, j as int),
                    ),
            decreases k - a,
        {
            let row = if a < i {
                a
            } else {
                a + 1
            };
            let mut b: usize = 0;
            while b < k
                invariant
                    self.wf(),
                    n == self.spec_size(),
                    k == n - 1,
                    i < n,
                    j < n,
                    a < k,
                    row == skip(a as int, i as int),
                    b <= k,
                    data@.len() == a * k + b,
                    forall|x: int, y: int|
                        0 <= x < a && 0 <= y < k ==> #[trigger] data@[x * k + y] == self.entry(
                            skip(x, i as int),
                            skip(y, j as int),
                        ),
                    forall|y: int|
                        0 <= y < b ==> #[trigger] data@[a * k + y] == self.entry(
                            row as int,
                            skip(y, j as int),
                        ),
                decreases k - b,
            {
                let col = if b < j {
                    b
                } else {
                    b + 1
                };
                proof {
                    lemma_index_in_range(a as int, b as int, k as int);
                }
                let v = self.at(row, col);
                let ghost prev = data@;
                data.push(v);
                proof {
                    assert forall|x: int, y: int| 0 <= x < a && 0 <= y < k implies #[trigger] data@[x
                        * k + y] == self.entry(skip(x, i as int), skip(y, j as int)) by {
                        lemma_before_row(x, y, a as int, k as int);
                        assert(prev[x * k + y] == self.entry(skip(x, i as int), skip(y, j as int)));
                    }
                    assert forall|y: int| 0 <= y < b + 1 implies #[trigger] data@[a * k + y]
                        == self.entry(row as int, skip(y, j as int)) by {
                        if y < b {
                            assert(prev[a * k + y] == self.entry(row as int, skip(y, j as int)));
                        }
                    }
                }
                b = b + 1;
            }
            proof {
                assert((a + 1) * k == a * k + k) by (nonlinear_arith);
                assert forall|x: int, y: int|
                    0 <= x < a + 1 && 0 <= y < k implies #[trigger] data@[x * k + y]
                    == self.entry(skip(x, i as int), skip(y, j as int)) by {
                    if x == a {
                    }
                }
            }
            a = a + 1;
        }
        proof {
            assert(k * k == a * k);
        }
        Matrix { size: k, data }
    }
}

impl<T: Copy> MatrixBuilder<T> {
    pub closed spec fn spec_size(&self) -> nat {
        self.size as nat
    }

    /// How many rows have been given.
    pub closed spec fn rows_done(&self) -> nat {
        self.current_row as nat
    }

    /// The rows given so far, one after the other.
    pub closed spec fn entries(&self) -> Seq<T> {
        self.data@
    }

    pub closed spec fn wf(&self) -> bool {
        &&& self.size <= MAX_SIZE
        &&& self.current_row <= self.size
        &&& self.data@.len() == self.current_row * self.size
    }

    /// A builder for a `size` by `size` matrix, with no rows yet.
    pub fn new(size: usize) -> (b: Self)
        requires
            size <= MAX_SIZE,
        ensures
            b.wf(),
            b.spec_size() == size,
            b.rows_done() == 0,
            b.entries() == Seq::<T>::empty(),
    {
        MatrixBuilder { current_row: 0, size, data: Vec::new() }
    }

    pub fn size(&self) -> (r: usize)
        ensures
            r == self.spec_size(),
    {
        self.size
    }

    /// How many rows have been given.
    pub fn current_row(&self) -> (r: usize)
        ensures
            r == self.rows_done(),
    {
        self.current_row
    }

    /// Adds the next row.
    pub fn row(&mut self, args: &[T]) -> (r: &mut Self)
        requires
            old(self).wf(),
            old(self).rows_done() < old(self).spec_size(),
            args@.len() == old(self).spec_size(),
        ensures
            r.wf(),
            r.spec_size() == old(self).spec_size(),
            r.rows_done() == old(self).rows_done() + 1,
            r.entries() == old(self).entries() + args@,
            *final(self) == *final(r),
    {
        let mut k: usize = 0;
        let ghost start = self.data@;
        while k < args.len()
            invariant
                k <= args@.len(),
                self.size == args@.len(),
                self.size <= MAX_SIZE,
                self.current_row < self.size,
                self.current_row == old(self).current_row,
                start.len() == self.current_row * self.size,
                self.data@ == start + args@.take(k as int),
            decreases args@.len() - k,
        {
            self.data.push(args[k]);
            k = k + 1;
            assert(self.data@ =~= start + args@.take(k as int));
        }
        assert(args@.take(args@.len() as int) =~= args@);
        proof {
            assert((self.current_row + 1) * self.size == self.current_row * self.size + self.size)
                by (nonlinear_arith);
        }
        self.current_row = self.current_row + 1;
        self
    }

    /// The matrix, once every row has been given.
    pub fn matrix(&mut self) -> (m: Matrix<T>)
        requires
            old(self).wf(),
            old(self).rows_done() == old(self).spec_size(),
        ensures
            m.wf(),
            m.spec_size() == old(self).spec_size(),
            forall|i: int, j: int|
                0 <= i < m.spec_size() && 0 <= j < m.spec_size() ==> #[trigger] m.entry(i, j)
                    == old(self).entries()[i * old(self).spec_size() + j],
            *final(self) == *old(self),
    {
        let mut data: Vec<T> = Vec::new();
        let mut k: usize = 0;
        while k < self.data.len()
            invariant
                k <= self.data@.len(),
                data@ == self.data@.take(k as int),
            decreases self.data@.len() - k,
        {
            data.push(self.data[k]);
            k = k + 1;
            assert(data@ =~= self.data@.take(k as int));
        }
        assert(data@ =~= self.data@);
        Matrix::new(self.size, data)
    }
}

} // verus!
