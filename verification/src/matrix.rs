//! A fixed-size two-dimensional container stored as a flat vector in
//! row-major order, addressed by linear index or by `(x, y)` coordinate.

use vstd::prelude::*;

verus! {

/// Linear index of the site at `(x, y)` in a row-major grid of the given width.
pub open spec fn spec_index_of_pos(width: usize, pos: (usize, usize)) -> int {
    pos.0 + pos.1 * width
}

/// The `(x, y)` coordinate of a linear index in a row-major grid of the given width.
pub open spec fn spec_pos_of_index(width: usize, index: usize) -> (usize, usize)
    recommends
        width > 0,
{
    (
        (index as int % width as int) as usize,
        (index as int / width as int) as usize,
    )
}

pub fn index_of_pos(width: usize, pos: (usize, usize)) -> (r: usize)
    requires
        pos.0 + pos.1 * width <= usize::MAX,
    ensures
        r == spec_index_of_pos(width, pos),
{
    let (x, y) = pos;
    x + y * width
}

pub fn pos_of_index(width: usize, index: usize) -> (r: (usize, usize))
    requires
        width > 0,
    ensures
        r == spec_pos_of_index(width, index),
        r.0 < width,
        r.0 + r.1 * width == index,
        r.1 == index as int / width as int,
{
    proof {
        vstd::arithmetic::div_mod::lemma_fundamental_div_mod(index as int, width as int);
        vstd::arithmetic::div_mod::lemma_mod_division_less_than_divisor(
            index as int,
            width as int,
        );
    }
    let x = index % width;
    let y = (index - x) / width;
    proof {
        let q = index as int / width as int;
        vstd::arithmetic::div_mod::lemma_div_multiples_vanish(q, width as int);
        assert(width as int * q == index - x);
        assert(q * width as int == width as int * q) by (nonlinear_arith);
    }
    (x, y)
}

/// A coordinate strictly inside a `width` by `height` grid has a linear
/// index strictly below `width * height`.
pub proof fn lemma_pos_in_bounds(width: usize, height: usize, x: usize, y: usize)
    requires
        x < width,
        y < height,
    ensures
        x + y * width < width * height,
    decreases height,
{
    if y + 1 == height {
        assert(x + y * width < width + y * width);
        assert(width + y * width == (y + 1) * width) by (nonlinear_arith);
        assert((y + 1) * width <= height * width) by (nonlinear_arith)
            requires y + 1 <= height;
        assert(height * width == width * height) by (nonlinear_arith);
    } else {
        lemma_pos_in_bounds(width, (height - 1) as usize, x, y);
        assert((height - 1) * width <= height * width) by (nonlinear_arith);
        assert(width * (height - 1) == (height - 1) * width) by (nonlinear_arith);
        assert(width * height == height * width) by (nonlinear_arith);
    }
}

#[derive(Debug)]
pub struct Matrix<T> {
    pub width: usize,
    pub xs: Vec<T>,
}

impl<T> Matrix<T> {
    /// The flat backing sequence always holds exactly `width * height` elements;
    /// the height is recoverable from the length.
    pub open spec fn spec_height(self) -> int {
        self.xs@.len() as int / self.width as int
    }

    pub open spec fn wf(self) -> bool {
        &&& self.width > 0
        &&& self.xs@.len() == self.width * self.spec_height()
    }

    /// Build a `width` by `height` matrix; the element at linear index `i` is
    /// `f(((width, height), pos_of_index(width, i)))`.
    pub fn new<F: Fn(((usize, usize), (usize, usize))) -> T>(
        width: usize,
        height: usize,
        f: F,
    ) -> (r: Matrix<T>)
        requires
            width > 0,
            width * height <= usize::MAX,
            forall|a: (((usize, usize), (usize, usize)),)| #[trigger] call_requires(f, a),
        ensures
            r.width == width,
            r.xs@.len() == width * height,
            r.wf(),
            forall|k: int|
                0 <= k < width * height ==> call_ensures(
                    f,
                    (((width, height), spec_pos_of_index(width, k as usize)),),
                    #[trigger] r.xs@[k],
                ),
    {
        let n: usize = width * height;
        let mut xs: Vec<T> = Vec::new();
        let mut i: usize = 0;
        while i < n
            invariant
                n == width * height,
                width > 0,
                i <= n,
                xs@.len() == i,
                forall|a: (((usize, usize), (usize, usize)),)| #[trigger] call_requires(f, a),
                forall|k: int|
                    0 <= k < i ==> call_ensures(
                        f,
                        (((width, height), spec_pos_of_index(width, k as usize)),),
                        #[trigger] xs@[k],
                    ),
            decreases n - i,
        {
            let p = pos_of_index(width, i);
            let v = f(((width, height), p));
            xs.push(v);
            i = i + 1;
        }
        proof {
            vstd::arithmetic::div_mod::lemma_div_multiples_vanish(height as int, width as int);
            assert(width as int * height as int == n);
        }
        Matrix { width, xs }
    }

    /// The element at a linear index.
    pub fn at(&self, i: usize) -> (r: &T)
        requires
            i < self.xs@.len(),
        ensures
            *r == self.xs@[i as int],
    {
        &self.xs[i]
    }

    /// The element at an `(x, y)` coordinate.
    pub fn at_pos(&self, pos: (usize, usize)) -> (r: &T)
        requires
            spec_index_of_pos(self.width, pos) < self.xs@.len(),
        ensures
            *r == self.xs@[spec_index_of_pos(self.width, pos)],
    {
        let (x, y) = pos;
        let n: usize = self.xs.len();
        assert(y * self.width <= n);
        &self.xs[x + y * self.width]
    }

    /// Replace the element at a linear index.
    pub fn set(&mut self, i: usize, v: T)
        requires
            i < old(self).xs@.len(),
        ensures
            final(self).width == old(self).width,
            final(self).xs@ == old(self).xs@.update(i as int, v),
    {
        self.xs.set(i, v);
    }

    /// Replace the element at an `(x, y)` coordinate.
    pub fn set_pos(&mut self, pos: (usize, usize), v: T)
        requires
            spec_index_of_pos(old(self).width, pos) < old(self).xs@.len(),
        ensures
            final(self).width == old(self).width,
            final(self).xs@ == old(self).xs@.update(
                spec_index_of_pos(old(self).width, pos),
                v,
            ),
    {
        let (x, y) = pos;
        let n: usize = self.xs.len();
        assert(y * self.width <= n);
        let i: usize = x + y * self.width;
        self.xs.set(i, v);
    }

    pub fn iter<'a>(&'a self) -> (r: MatrixIterator<'a, T>)
        ensures
            r.matrix == self,
            r.i == 0,
    {
        MatrixIterator::new(self)
    }

    pub fn enumerator<'a>(&'a self) -> (r: MatrixEnumerator<'a, T>)
        ensures
            r.matrix == self,
            r.i == 0,
    {
        MatrixEnumerator::new(self)
    }
}

/// Walks a matrix in linear order, pairing each element with its coordinate.
pub struct MatrixEnumerator<'a, T> {
    pub matrix: &'a Matrix<T>,
    pub i: usize,
}

impl<'a, T> MatrixEnumerator<'a, T> {
    pub fn new(matrix: &'a Matrix<T>) -> (r: Self)
        ensures
            r.matrix == matrix,
            r.i == 0,
    {
        MatrixEnumerator { matrix, i: 0 }
    }

    pub fn next(&mut self) -> (r: Option<((usize, usize), &'a T)>)
        requires
            old(self).matrix.width > 0,
        ensures
            final(self).matrix == old(self).matrix,
            old(self).i >= old(self).matrix.xs@.len() ==> r is None && final(self).i == old(
                self,
            ).i,
            old(self).i < old(self).matrix.xs@.len() ==> {
                &&& final(self).i == old(self).i + 1
                &&& r matches Some(p) && p.0 == spec_pos_of_index(
                    old(self).matrix.width,
                    old(self).i,
                ) && *p.1 == old(self).matrix.xs@[old(self).i as int]
            },
    {
        if self.i >= self.matrix.xs.len() {
            None
        } else {
            let result = (pos_of_index(self.matrix.width, self.i), self.matrix.at(self.i));
            self.i = self.i + 1;
            Some(result)
        }
    }
}

/// Walks a matrix's elements in linear order.
pub struct MatrixIterator<'a, T> {
    pub matrix: &'a Matrix<T>,
    pub i: usize,
}

impl<'a, T> MatrixIterator<'a, T> {
    pub fn new(matrix: &'a Matrix<T>) -> (r: Self)
        ensures
            r.matrix == matrix,
            r.i == 0,
    {
        MatrixIterator { matrix, i: 0 }
    }

    pub fn next(&mut self) -> (r: Option<&'a T>)
        ensures
            final(self).matrix == old(self).matrix,
            old(self).i >= old(self).matrix.xs@.len() ==> r is None && final(self).i == old(
                self,
            ).i,
            old(self).i < old(self).matrix.xs@.len() ==> {
                &&& final(self).i == old(self).i + 1
                &&& r matches Some(v) && *v == old(self).matrix.xs@[old(self).i as int]
            },
    {
        if self.i >= self.matrix.xs.len() {
            None
        } else {
            let result = self.matrix.at(self.i);
            self.i = self.i + 1;
            Some(result)
        }
    }
}

} // verus!
