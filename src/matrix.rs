use vstd::prelude::*;
use vstd::std_specs::ops::{AddSpec, MulSpec, SubSpec};

use crate::error::NetworkError;

verus! {

/// The abstract value of a matrix: its shape and its entries, row by row.
pub struct Grid<T> {
    pub rows: nat,
    pub cols: nat,
    pub cells: Seq<Seq<T>>,
}

impl<T> Grid<T> {
    /// The entries agree with the shape: `rows` rows of `cols` entries each.
    pub open spec fn wf(self) -> bool {
        &&& self.cells.len() == self.rows
        &&& forall|i: int| 0 <= i < self.rows ==> (#[trigger] self.cells[i]).len() == self.cols
    }

    /// Both have the same number of rows and of columns.
    pub open spec fn same_shape(self, o: Grid<T>) -> bool {
        self.rows == o.rows && self.cols == o.cols
    }

    /// The entry in row `i`, column `j`.
    pub open spec fn at(self, i: int, j: int) -> T {
        self.cells[i][j]
    }
}

/// The transpose: entry `(j, i)` of the result is entry `(i, j)` of `g`.
pub open spec fn transpose_of<T>(g: Grid<T>) -> Grid<T> {
    Grid {
        rows: g.cols,
        cols: g.rows,
        cells: Seq::new(g.cols, |j: int| Seq::new(g.rows, |i: int| g.cells[i][j])),
    }
}

/// Adding two elements never fails.
pub open spec fn add_total<T: std::ops::Add<Output = T>>() -> bool {
    forall|x: T, y: T| #[trigger] x.add_req(y)
}

/// Subtracting two elements never fails.
pub open spec fn sub_total<T: std::ops::Sub<Output = T>>() -> bool {
    forall|x: T, y: T| #[trigger] x.sub_req(y)
}

/// Multiplying two elements never fails.
pub open spec fn mul_total<T: std::ops::Mul<Output = T>>() -> bool {
    forall|x: T, y: T| #[trigger] x.mul_req(y)
}

/// Each entry of `a` can be added to the entry of `b` in the same place.
pub open spec fn entries_addable<T: std::ops::Add<Output = T>>(a: Grid<T>, b: Grid<T>) -> bool {
    forall|i: int, j: int|
        0 <= i < a.rows && 0 <= j < a.cols ==> #[trigger] a.at(i, j).add_req(b.at(i, j))
}

/// Each entry of `b` can be subtracted from the entry of `a` in the same place.
pub open spec fn entries_subtractable<T: std::ops::Sub<Output = T>>(a: Grid<T>, b: Grid<T>) -> bool {
    forall|i: int, j: int|
        0 <= i < a.rows && 0 <= j < a.cols ==> #[trigger] a.at(i, j).sub_req(b.at(i, j))
}

/// Each entry of `a` can be multiplied by the entry of `b` in the same place.
pub open spec fn entries_multipliable<T: std::ops::Mul<Output = T>>(a: Grid<T>, b: Grid<T>) -> bool {
    forall|i: int, j: int|
        0 <= i < a.rows && 0 <= j < a.cols ==> #[trigger] a.at(i, j).mul_req(b.at(i, j))
}

/// `r` is the entrywise sum of the equally shaped `a` and `b`.
pub open spec fn is_sum<T: std::ops::Add<Output = T>>(a: Grid<T>, b: Grid<T>, r: Grid<T>) -> bool {
    &&& r.wf()
    &&& r.same_shape(a)
    &&& forall|i: int, j: int|
        0 <= i < a.rows && 0 <= j < a.cols ==> call_ensures(
            T::add,
            (a.at(i, j), b.at(i, j)),
            #[trigger] r.at(i, j),
        )
}

/// `r` is the entrywise difference `a - b` of the equally shaped `a` and `b`.
pub open spec fn is_difference<T: std::ops::Sub<Output = T>>(
    a: Grid<T>,
    b: Grid<T>,
    r: Grid<T>,
) -> bool {
    &&& r.wf()
    &&& r.same_shape(a)
    &&& forall|i: int, j: int|
        0 <= i < a.rows && 0 <= j < a.cols ==> call_ensures(
            T::sub,
            (a.at(i, j), b.at(i, j)),
            #[trigger] r.at(i, j),
        )
}

/// `r` is the entrywise product of the equally shaped `a` and `b`.
pub open spec fn is_entrywise_product<T: std::ops::Mul<Output = T>>(
    a: Grid<T>,
    b: Grid<T>,
    r: Grid<T>,
) -> bool {
    &&& r.wf()
    &&& r.same_shape(a)
    &&& forall|i: int, j: int|
        0 <= i < a.rows && 0 <= j < a.cols ==> call_ensures(
            T::mul,
            (a.at(i, j), b.at(i, j)),
            #[trigger] r.at(i, j),
        )
}

/// `sums` are the running sums of the products `prods[k] = a[i][k] * b[k][j]` for `k` in
/// `0..n`: `sums[0]` is the element type's default value and `sums[k + 1]` is
/// `sums[k] + prods[k]`.
pub open spec fn is_dot_chain<T>(
    a: Grid<T>,
    b: Grid<T>,
    i: int,
    j: int,
    n: nat,
    prods: Seq<T>,
    sums: Seq<T>,
) -> bool where T: Default + std::ops::Add<Output = T> + std::ops::Mul<Output = T> {
    &&& prods.len() == n
    &&& sums.len() == n + 1
    &&& call_ensures(T::default, (), sums[0])
    &&& forall|k: int|
        0 <= k < n ==> call_ensures(T::mul, (a.at(i, k), b.at(k, j)), #[trigger] prods[k])
            && call_ensures(T::add, (sums[k], prods[k]), sums[k + 1])
}

/// `s` is a value that summing the products `a[i][k] * b[k][j]` over the inner index, in
/// order and starting from the element type's default value, can give.
pub open spec fn is_dot<T>(a: Grid<T>, b: Grid<T>, i: int, j: int, s: T) -> bool where
    T: Default + std::ops::Add<Output = T> + std::ops::Mul<Output = T>,
 {
    exists|prods: Seq<T>, sums: Seq<T>|
        #[trigger] is_dot_chain(a, b, i, j, a.cols, prods, sums) && sums.last() == s
}

/// Every step of the running sum for entry `(i, j)` of `a * b` is defined: each product
/// `a[i][k] * b[k][j]`, and adding it to whatever the sum so far can be.
pub open spec fn dot_defined<T>(a: Grid<T>, b: Grid<T>, i: int, j: int) -> bool where
    T: Default + std::ops::Add<Output = T> + std::ops::Mul<Output = T>,
 {
    forall|n: nat, prods: Seq<T>, sums: Seq<T>|
        n < a.cols && #[trigger] is_dot_chain(a, b, i, j, n, prods, sums) ==> {
            &&& a.at(i, n as int).mul_req(b.at(n as int, j))
            &&& forall|q: T|
                #[trigger] call_ensures(T::mul, (a.at(i, n as int), b.at(n as int, j)), q)
                    ==> sums.last().add_req(q)
        }
}

/// The running sum of every entry of `a * b` is defined.
pub open spec fn product_defined<T>(a: Grid<T>, b: Grid<T>) -> bool where
    T: Default + std::ops::Add<Output = T> + std::ops::Mul<Output = T>,
 {
    forall|i: int, j: int| 0 <= i < a.rows && 0 <= j < b.cols ==> #[trigger] dot_defined(a, b, i, j)
}

/// `r` is the matrix product of `a` and `b`, whose inner dimensions agree.
pub open spec fn is_product<T>(a: Grid<T>, b: Grid<T>, r: Grid<T>) -> bool where
    T: Default + std::ops::Add<Output = T> + std::ops::Mul<Output = T>,
 {
    &&& r.wf()
    &&& r.rows == a.rows
    &&& r.cols == b.cols
    &&& forall|i: int, j: int|
        0 <= i < a.rows && 0 <= j < b.cols ==> is_dot(a, b, i, j, #[trigger] r.at(i, j))
}

/// `r` is `a` with each entry multiplied by `k`.
pub open spec fn is_scaled<T: std::ops::Mul<Output = T>>(a: Grid<T>, k: T, r: Grid<T>) -> bool {
    &&& r.wf()
    &&& r.same_shape(a)
    &&& forall|i: int, j: int|
        0 <= i < a.rows && 0 <= j < a.cols ==> call_ensures(T::mul, (a.at(i, j), k), #[trigger] r.at(i, j))
}

/// `r` has the shape of `a`, and each entry is what `f` returns on the entry of `a` there.
pub open spec fn is_mapped<T, F: Fn(T) -> T>(a: Grid<T>, f: F, r: Grid<T>) -> bool {
    &&& r.wf()
    &&& r.same_shape(a)
    &&& forall|i: int, j: int|
        0 <= i < a.rows && 0 <= j < a.cols ==> f.ensures((a.at(i, j),), #[trigger] r.at(i, j))
}

/// `v` is `2u - 1` for some draw `u`: the sum `u + u` less the element type's one.
pub open spec fn is_spread_draw<T>(v: T) -> bool where
    T: From<u8> + std::ops::Add<Output = T> + std::ops::Sub<Output = T>,
 {
    exists|u: T, one: T, s: T|
        call_ensures(T::from, (1u8,), one) && #[trigger] call_ensures(T::add, (u, u), s)
            && #[trigger] call_ensures(T::sub, (s, one), v)
}

/// Every entry of `g` is `2u - 1` for some draw `u`.
pub open spec fn all_spread_draws<T>(g: Grid<T>) -> bool where
    T: From<u8> + std::ops::Add<Output = T> + std::ops::Sub<Output = T>,
 {
    forall|i: int, j: int| 0 <= i < g.rows && 0 <= j < g.cols ==> is_spread_draw(#[trigger] g.at(i, j))
}

/// Transposing twice gives back the matrix one started from.
pub proof fn lemma_transpose_involutive<T>(g: Grid<T>)
    requires
        g.wf(),
    ensures
        transpose_of(transpose_of(g)) == g,
{
    let t = transpose_of(transpose_of(g));
    assert forall|i: int| 0 <= i < g.rows implies t.cells[i] =~= g.cells[i] by {}
    assert(t.cells =~= g.cells);
}

/// Matrix addition commutes wherever element addition does: a sum of `a` and `b` and a
/// sum of `b` and `a` are the same matrix.
pub proof fn lemma_add_commutes<T: std::ops::Add<Output = T>>(
    a: Grid<T>,
    b: Grid<T>,
    ab: Grid<T>,
    ba: Grid<T>,
)
    requires
        a.wf(),
        b.wf(),
        a.same_shape(b),
        is_sum(a, b, ab),
        is_sum(b, a, ba),
        forall|x: T, y: T, u: T, v: T|
            #[trigger] call_ensures(T::add, (x, y), u) && #[trigger] call_ensures(T::add, (y, x), v)
                ==> u == v,
    ensures
        ab == ba,
{
    assert forall|i: int| 0 <= i < a.rows implies ab.cells[i] =~= ba.cells[i] by {
        assert forall|j: int| 0 <= j < a.cols implies ab.cells[i][j] == ba.cells[i][j] by {
            assert(call_ensures(T::add, (a.at(i, j), b.at(i, j)), ab.at(i, j)));
            assert(call_ensures(T::add, (b.at(i, j), a.at(i, j)), ba.at(i, j)));
        }
    }
    assert(ab.cells =~= ba.cells);
}

/// Mapping a function that returns its argument gives back the same matrix.
pub proof fn lemma_map_identity<T, F: Fn(T) -> T>(a: Grid<T>, f: F, r: Grid<T>)
    requires
        a.wf(),
        forall|x: T, y: T| #[trigger] f.ensures((x,), y) ==> y == x,
        is_mapped(a, f, r),
    ensures
        r == a,
{
    assert forall|i: int| 0 <= i < a.rows implies r.cells[i] =~= a.cells[i] by {
        assert forall|j: int| 0 <= j < a.cols implies r.cells[i][j] == a.cells[i][j] by {
            assert(f.ensures((a.at(i, j),), r.at(i, j)));
        }
    }
    assert(r.cells =~= a.cells);
}

/// Relies on `rand::random` (a draw from `thread_rng`): a value of the `Standard`
/// distribution, for floating-point types uniform in `[0, 1)`. Nothing is promised of it.
pub assume_specification<T>[ rand::random::<T> ]() -> (r: T)
    where
        rand::distributions::Standard: rand::distributions::Distribution<T>,
;

/// A dense matrix stored row by row.
#[derive(Clone, Debug)]
pub struct Matrix<T> {
    pub rows: usize,
    pub cols: usize,
    pub data: Vec<Vec<T>>,
}

impl<T> View for Matrix<T> {
    type V = Grid<T>;

    open spec fn view(&self) -> Grid<T> {
        Grid {
            rows: self.rows as nat,
            cols: self.cols as nat,
            cells: self.data@.map_values(|r: Vec<T>| r@),
        }
    }
}

impl<T: Copy> Matrix<T> {
    /// The rows and columns fields agree with the stored rows.
    pub open spec fn wf(&self) -> bool {
        self@.wf()
    }

    /// A `rows` by `cols` matrix whose every entry is the element type's default value
    /// (zero for numbers).
    pub fn new(rows: usize, cols: usize) -> (r: Matrix<T>) where T: Default
        ensures
            r.wf(),
            r.rows == rows,
            r.cols == cols,
            forall|i: int, j: int|
                0 <= i < rows && 0 <= j < cols ==> call_ensures(T::default, (), #[trigger] r@.at(i, j)),
    {
        let mut data: Vec<Vec<T>> = Vec::new();
        let mut i: usize = 0;
        while i < rows
            invariant
                i <= rows,
                data@.len() == i,
                forall|k: int| 0 <= k < i ==> (#[trigger] data@[k])@.len() == cols,
                forall|k: int, j: int|
                    0 <= k < i && 0 <= j < cols ==> call_ensures(T::default, (), #[trigger] data@[k]@[j]),
            decreases rows - i,
        {
            let mut row: Vec<T> = Vec::new();
            let mut j: usize = 0;
            while j < cols
                invariant
                    j <= cols,
                    row@.len() == j,
                    forall|l: int| 0 <= l < j ==> call_ensures(T::default, (), #[trigger] row@[l]),
                decreases cols - j,
            {
                row.push(T::default());
                j += 1;
            }
            data.push(row);
            i += 1;
        }
        Matrix { rows, cols, data }
    }

    /// The matrix whose rows are `arr`. Refused with `ShapeMismatch` when `arr` is empty,
    /// since no column count can be read from it, or when its rows differ in length.
    pub fn from(arr: Vec<Vec<T>>) -> (r: Result<Matrix<T>, NetworkError>)
        ensures
            match r {
                Ok(m) => {
                    &&& arr@.len() > 0
                    &&& m.wf()
                    &&& m.data@ == arr@
                    &&& m.rows == arr@.len()
                    &&& m.cols == arr@[0]@.len()
                },
                Err(e) => {
                    &&& e == NetworkError::ShapeMismatch
                    &&& (arr@.len() == 0 || exists|i: int|
                        0 <= i < arr@.len() && (#[trigger] arr@[i])@.len() != arr@[0]@.len())
                },
            },
    {
        if arr.len() == 0 {
            return Err(NetworkError::ShapeMismatch);
        }
        let cols = arr[0].len();
        let mut i: usize = 1;
        while i < arr.len()
            invariant
                1 <= i <= arr@.len(),
                cols == arr@[0]@.len(),
                forall|k: int| 0 <= k < i ==> (#[trigger] arr@[k])@.len() == cols,
            decreases arr@.len() - i,
        {
            if arr[i].len() != cols {
                return Err(NetworkError::ShapeMismatch);
            }
            i += 1;
        }
        Ok(Matrix { rows: arr.len(), cols, data: arr })
    }

    /// The transpose of this matrix.
    pub fn transpose(&self) -> (r: Matrix<T>)
        requires
            self.wf(),
        ensures
            r.wf(),
            r@ == transpose_of(self@),
    {
        let mut data: Vec<Vec<T>> = Vec::new();
        let mut j: usize = 0;
        while j < self.cols
            invariant
                self.wf(),
                j <= self.cols,
                data@.len() == j,
                forall|l: int| 0 <= l < j ==> (#[trigger] data@[l])@.len() == self.rows,
                forall|l: int, i: int|
                    0 <= l < j && 0 <= i < self.rows ==> (#[trigger] data@[l]@[i]) == self@.at(i, l),
            decreases self.cols - j,
        {
            let mut row: Vec<T> = Vec::new();
            let mut i: usize = 0;
            while i < self.rows
                invariant
                    self.wf(),
                    j < self.cols,
                    i <= self.rows,
                    row@.len() == i,
                    forall|k: int| 0 <= k < i ==> (#[trigger] row@[k]) == self@.at(k, j as int),
                decreases self.rows - i,
            {
                assert(self@.cells[i as int] == self.data@[i as int]@);
                row.push(self.data[i][j]);
                i += 1;
            }
            data.push(row);
            j += 1;
        }
        let r = Matrix { rows: self.cols, cols: self.rows, data };
        assert forall|l: int| 0 <= l < self.cols implies r@.cells[l] =~= transpose_of(self@).cells[l] by {}
        assert(r@.cells =~= transpose_of(self@).cells);
        r
    }


    /// A `rows` by `cols` matrix of independent draws: each entry is `2u - 1` for a fresh
    /// draw `u` of the `Standard` distribution, which for floating-point types is uniform
    /// in `[-1, 1)`.
    pub fn random(rows: usize, cols: usize) -> (r: Matrix<T>) where
        T: From<u8> + std::ops::Add<Output = T> + std::ops::Sub<Output = T>,
        rand::distributions::Standard: rand::distributions::Distribution<T>,
        requires
            add_total::<T>(),
            sub_total::<T>(),
        ensures
            r.wf(),
            r.rows == rows,
            r.cols == cols,
            all_spread_draws(r@),
    {
        let one = T::from(1u8);
        let mut data: Vec<Vec<T>> = Vec::new();
        let mut i: usize = 0;
        while i < rows
            invariant
                add_total::<T>(),
                sub_total::<T>(),
                call_ensures(T::from, (1u8,), one),
                i <= rows,
                data@.len() == i,
                forall|k: int| 0 <= k < i ==> (#[trigger] data@[k])@.len() == cols,
                forall|k: int, l: int|
                    0 <= k < i && 0 <= l < cols ==> is_spread_draw(#[trigger] data@[k]@[l]),
            decreases rows - i,
        {
            let mut row: Vec<T> = Vec::new();
            let mut j: usize = 0;
            while j < cols
                invariant
                    add_total::<T>(),
                    sub_total::<T>(),
                    call_ensures(T::from, (1u8,), one),
                    j <= cols,
                    row@.len() == j,
                    forall|l: int| 0 <= l < j ==> is_spread_draw(#[trigger] row@[l]),
                decreases cols - j,
            {
                let u: T = rand::random::<T>();
                let s = u + u;
                let v = s - one;
                assert(is_spread_draw(v));
                row.push(v);
                j += 1;
            }
            data.push(row);
            i += 1;
        }
        Matrix { rows, cols, data }
    }

    /// The entrywise sum of two matrices of one shape; `ShapeMismatch` when the shapes differ.
    pub fn add(&self, other: &Matrix<T>) -> (r: Result<Matrix<T>, NetworkError>) where
        T: std::ops::Add<Output = T>,
        requires
            self.wf(),
            other.wf(),
            self@.same_shape(other@) ==> entries_addable(self@, other@),
        ensures
            match r {
                Ok(m) => self@.same_shape(other@) && is_sum(self@, other@, m@),
                Err(e) => e == NetworkError::ShapeMismatch && !self@.same_shape(other@),
            },
    {
        if self.rows != other.rows || self.cols != other.cols {
            return Err(NetworkError::ShapeMismatch);
        }
        let mut data: Vec<Vec<T>> = Vec::new();
        let mut i: usize = 0;
        while i < self.rows
            invariant
                self.wf(),
                other.wf(),
                self@.same_shape(other@),
                entries_addable(self@, other@),
                i <= self.rows,
                data@.len() == i,
                forall|k: int| 0 <= k < i ==> (#[trigger] data@[k])@.len() == self.cols,
                forall|k: int, j: int|
                    0 <= k < i && 0 <= j < self.cols ==> call_ensures(
                        T::add,
                        (self@.at(k, j), other@.at(k, j)),
                        #[trigger] data@[k]@[j],
                    ),
            decreases self.rows - i,
        {
            let ghost gi = i as int;
            assert(self@.cells[gi] == self.data@[gi]@ && other@.cells[gi] == other.data@[gi]@);
            let mut row: Vec<T> = Vec::new();
            let mut j: usize = 0;
            while j < self.cols
                invariant
                    self.wf(),
                    other.wf(),
                    self@.same_shape(other@),
                    entries_addable(self@, other@),
                    i < self.rows,
                    j <= self.cols,
                    row@.len() == j,
                    self@.cells[i as int] == self.data@[i as int]@,
                    other@.cells[i as int] == other.data@[i as int]@,
                    forall|l: int|
                        0 <= l < j ==> call_ensures(
                            T::add,
                            (self@.at(i as int, l), other@.at(i as int, l)),
                            #[trigger] row@[l],
                        ),
                decreases self.cols - j,
            {
                assert(self@.at(i as int, j as int).add_req(other@.at(i as int, j as int)));
                row.push(self.data[i][j] + other.data[i][j]);
                j += 1;
            }
            data.push(row);
            i += 1;
        }
        Ok(Matrix { rows: self.rows, cols: self.cols, data })
    }

    /// The entrywise (Hadamard) product of two matrices of one shape; `ShapeMismatch` when the shapes differ.
    pub fn dot_multiply(&self, other: &Matrix<T>) -> (r: Result<Matrix<T>, NetworkError>) where
        T: std::ops::Mul<Output = T>,
        requires
            self.wf(),
            other.wf(),
            self@.same_shape(other@) ==> entries_multipliable(self@, other@),
        ensures
            match r {
                Ok(m) => self@.same_shape(other@) && is_entrywise_product(self@, other@, m@),
                Err(e) => e == NetworkError::ShapeMismatch && !self@.same_shape(other@),
            },
    {
        if self.rows != other.rows || self.cols != other.cols {
            return Err(NetworkError::ShapeMismatch);
        }
        let mut data: Vec<Vec<T>> = Vec::new();
        let mut i: usize = 0;
        while i < self.rows
            invariant
                self.wf(),
                other.wf(),
                self@.same_shape(other@),
                entries_multipliable(self@, other@),
                i <= self.rows,
                data@.len() == i,
                forall|k: int| 0 <= k < i ==> (#[trigger] data@[k])@.len() == self.cols,
                forall|k: int, j: int|
                    0 <= k < i && 0 <= j < self.cols ==> call_ensures(
                        T::mul,
                        (self@.at(k, j), other@.at(k, j)),
                        #[trigger] data@[k]@[j],
                    ),
            decreases self.rows - i,
        {
            let ghost gi = i as int;
            assert(self@.cells[gi] == self.data@[gi]@ && other@.cells[gi] == other.data@[gi]@);
            let mut row: Vec<T> = Vec::new();
            let mut j: usize = 0;
            while j < self.cols
                invariant
                    self.wf(),
                    other.wf(),
                    self@.same_shape(other@),
                    entries_multipliable(self@, other@),
                    i < self.rows,
                    j <= self.cols,
                    row@.len() == j,
                    self@.cells[i as int] == self.data@[i as int]@,
                    other@.cells[i as int] == other.data@[i as int]@,
                    forall|l: int|
                        0 <= l < j ==> call_ensures(
                            T::mul,
                            (self@.at(i as int, l), other@.at(i as int, l)),
                            #[trigger] row@[l],
                        ),
                decreases self.cols - j,
            {
                assert(self@.at(i as int, j as int).mul_req(other@.at(i as int, j as int)));
                row.push(self.data[i][j] * other.data[i][j]);
                j += 1;
            }
            data.push(row);
            i += 1;
        }
        Ok(Matrix { rows: self.rows, cols: self.cols, data })
    }

    /// The entrywise difference `self - other` of two matrices of one shape; `ShapeMismatch` when the shapes differ.
    pub fn subtract(&self, other: &Matrix<T>) -> (r: Result<Matrix<T>, NetworkError>) where
        T: std::ops::Sub<Output = T>,
        requires
            self.wf(),
            other.wf(),
            self@.same_shape(other@) ==> entries_subtractable(self@, other@),
        ensures
            match r {
                Ok(m) => self@.same_shape(other@) && is_difference(self@, other@, m@),
                Err(e) => e == NetworkError::ShapeMismatch && !self@.same_shape(other@),
            },
    {
        if self.rows != other.rows || self.cols != other.cols {
            return Err(NetworkError::ShapeMismatch);
        }
        let mut data: Vec<Vec<T>> = Vec::new();
        let mut i: usize = 0;
        while i < self.rows
            invariant
                self.wf(),
                other.wf(),
                self@.same_shape(other@),
                entries_subtractable(self@, other@),
                i <= self.rows,
                data@.len() == i,
                forall|k: int| 0 <= k < i ==> (#[trigger] data@[k])@.len() == self.cols,
                forall|k: int, j: int|
                    0 <= k < i && 0 <= j < self.cols ==> call_ensures(
                        T::sub,
                        (self@.at(k, j), other@.at(k, j)),
                        #[trigger] data@[k]@[j],
                    ),
            decreases self.rows - i,
        {
            let ghost gi = i as int;
            assert(self@.cells[gi] == self.data@[gi]@ && other@.cells[gi] == other.data@[gi]@);
            let mut row: Vec<T> = Vec::new();
            let mut j: usize = 0;
            while j < self.cols
                invariant
                    self.wf(),
                    other.wf(),
                    self@.same_shape(other@),
                    entries_subtractable(self@, other@),
                    i < self.rows,
                    j <= self.cols,
                    row@.len() == j,
                    self@.cells[i as int] == self.data@[i as int]@,
                    other@.cells[i as int] == other.data@[i as int]@,
                    forall|l: int|
                        0 <= l < j ==> call_ensures(
                            T::sub,
                            (self@.at(i as int, l), other@.at(i as int, l)),
                            #[trigger] row@[l],
                        ),
                decreases self.cols - j,
            {
                assert(self@.at(i as int, j as int).sub_req(other@.at(i as int, j as int)));
                row.push(self.data[i][j] - other.data[i][j]);
                j += 1;
            }
            data.push(row);
            i += 1;
        }
        Ok(Matrix { rows: self.rows, cols: self.cols, data })
    }

    /// The matrix product `self * other`; `ShapeMismatch` unless `self.cols == other.rows`.
    /// Each entry is accumulated left to right over the inner index.
    pub fn multiply(&self, other: &Matrix<T>) -> (r: Result<Matrix<T>, NetworkError>) where
        T: Default + std::ops::Add<Output = T> + std::ops::Mul<Output = T>,
        requires
            self.wf(),
            other.wf(),
            self.cols == other.rows ==> product_defined(self@, other@),
        ensures
            match r {
                Ok(m) => self.cols == other.rows && is_product(self@, other@, m@),
                Err(e) => e == NetworkError::ShapeMismatch && self.cols != other.rows,
            },
    {
        if self.cols != other.rows {
            return Err(NetworkError::ShapeMismatch);
        }
        let mut data: Vec<Vec<T>> = Vec::new();
        let mut i: usize = 0;
        while i < self.rows
            invariant
                self.wf(),
                other.wf(),
                self.cols == other.rows,
                product_defined(self@, other@),
                i <= self.rows,
                data@.len() == i,
                forall|k: int| 0 <= k < i ==> (#[trigger] data@[k])@.len() == other.cols,
                forall|k: int, j: int|
                    0 <= k < i && 0 <= j < other.cols ==> is_dot(
                        self@,
                        other@,
                        k,
                        j,
                        #[trigger] data@[k]@[j],
                    ),
            decreases self.rows - i,
        {
            let ghost gi = i as int;
            assert(self@.cells[gi] == self.data@[gi]@);
            let mut row: Vec<T> = Vec::new();
            let mut j: usize = 0;
            assert(forall|l: int| 0 <= l < other.cols ==> #[trigger] dot_defined(self@, other@, i as int, l));
            while j < other.cols
                invariant
                    self.wf(),
                    other.wf(),
                    self.cols == other.rows,
                    product_defined(self@, other@),
                    i < self.rows,
                    j <= other.cols,
                    row@.len() == j,
                    self@.cells[i as int] == self.data@[i as int]@,
                    forall|l: int|
                        0 <= l < j ==> is_dot(self@, other@, i as int, l, #[trigger] row@[l]),
                decreases other.cols - j,
            {
                let mut sum = T::default();
                let ghost mut prods: Seq<T> = Seq::empty();
                let ghost mut sums: Seq<T> = seq![sum];
                let mut k: usize = 0;
                while k < self.cols
                    invariant
                        self.wf(),
                        other.wf(),
                        self.cols == other.rows,
                        product_defined(self@, other@),
                        dot_defined(self@, other@, i as int, j as int),
                        i < self.rows,
                        j < other.cols,
                        k <= self.cols,
                        self@.cells[i as int] == self.data@[i as int]@,
                        is_dot_chain(self@, other@, i as int, j as int, k as nat, prods, sums),
                        sums.last() == sum,
                    decreases self.cols - k,
                {
                    let ghost gk = k as int;
                    assert(other@.cells[gk] == other.data@[gk]@);
                    assert(self@.at(i as int, gk).mul_req(other@.at(gk, j as int)));
                    let q = self.data[i][k] * other.data[k][j];
                    assert(sum.add_req(q));
                    sum = sum + q;
                    proof {
                        prods = prods.push(q);
                        sums = sums.push(sum);
                    }
                    k += 1;
                }
                assert(is_dot_chain(self@, other@, i as int, j as int, self@.cols, prods, sums));
                row.push(sum);
                j += 1;
            }
            data.push(row);
            i += 1;
        }
        Ok(Matrix { rows: self.rows, cols: other.cols, data })
    }

    /// The matrix of what `func` returns on each entry, in the same shape.
    pub fn map<F: Fn(T) -> T>(&self, func: &F) -> (r: Matrix<T>)
        requires
            self.wf(),
            forall|x: T| #[trigger] func.requires((x,)),
        ensures
            is_mapped(self@, *func, r@),
    {
        let mut data: Vec<Vec<T>> = Vec::new();
        let mut i: usize = 0;
        while i < self.rows
            invariant
                self.wf(),
                forall|x: T| #[trigger] func.requires((x,)),
                i <= self.rows,
                data@.len() == i,
                forall|k: int| 0 <= k < i ==> (#[trigger] data@[k])@.len() == self.cols,
                forall|k: int, j: int|
                    0 <= k < i && 0 <= j < self.cols ==> func.ensures(
                        (self@.at(k, j),),
                        #[trigger] data@[k]@[j],
                    ),
            decreases self.rows - i,
        {
            let ghost gi = i as int;
            assert(self@.cells[gi] == self.data@[gi]@);
            let mut row: Vec<T> = Vec::new();
            let mut j: usize = 0;
            while j < self.cols
                invariant
                    self.wf(),
                    forall|x: T| #[trigger] func.requires((x,)),
                    i < self.rows,
                    j <= self.cols,
                    row@.len() == j,
                    self@.cells[i as int] == self.data@[i as int]@,
                    forall|l: int|
                        0 <= l < j ==> func.ensures((self@.at(i as int, l),), #[trigger] row@[l]),
                decreases self.cols - j,
            {
                row.push(func(self.data[i][j]));
                j += 1;
            }
            data.push(row);
            i += 1;
        }
        Matrix { rows: self.rows, cols: self.cols, data }
    }

}

/// The matrix whose rows are `arr`; see `Matrix::from`.
pub fn from<T: Copy>(arr: Vec<Vec<T>>) -> (r: Result<Matrix<T>, NetworkError>)
    ensures
        match r {
            Ok(m) => {
                &&& arr@.len() > 0
                &&& m.wf()
                &&& m.data@ == arr@
                &&& m.rows == arr@.len()
                &&& m.cols == arr@[0]@.len()
            },
            Err(e) => {
                &&& e == NetworkError::ShapeMismatch
                &&& (arr@.len() == 0 || exists|i: int|
                    0 <= i < arr@.len() && (#[trigger] arr@[i])@.len() != arr@[0]@.len())
            },
        },
{
    Matrix::from(arr)
}

} // verus!
