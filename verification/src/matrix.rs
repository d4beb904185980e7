//! Dense matrices stored row by row, and the splitting of interleaved RGB
//! data into one matrix per channel.

use std::ops::{Add, Mul, Sub};
use vstd::prelude::*;
use vstd::pervasive::arbitrary;
use vstd::std_specs::ops::{AddSpec, MulSpec, SubSpec};

verus! {

/// Errors of matrix operations.
#[derive(Debug)]
pub enum MatrixError {
    /// The shapes of the operands do not fit together.
    IncompatibleShapes((usize, usize), (usize, usize)),
    /// The content does not have `height * width` elements.
    DifferentContentSize(usize, usize),
}

/// Matrix oriented this way:
/// M = [1 2 3
///      4 5 6]
/// with the elements stored row by row.
#[derive(Clone, Debug, PartialEq)]
pub struct Matrix<T> {
    height: usize,
    width: usize,
    content: Vec<T>,
}

impl<T> Matrix<T> {
    pub closed spec fn rows(&self) -> nat {
        self.height as nat
    }

    pub closed spec fn cols(&self) -> nat {
        self.width as nat
    }

    pub closed spec fn elems(&self) -> Seq<T> {
        self.content@
    }

    /// The content has exactly one element per position.
    pub open spec fn shaped(&self) -> bool {
        self.elems().len() == self.rows() * self.cols()
    }

    /// Element in row `y`, column `x`.
    pub open spec fn at(&self, y: int, x: int) -> T {
        self.elems()[y * self.cols() + x]
    }
}

/// The elements of the rows, one row after the other.
pub open spec fn flatten_rows<T>(rows: Seq<Vec<T>>) -> Seq<T> {
    rows.map_values(|r: Vec<T>| r@).flatten()
}

impl<T: Copy> Matrix<T> {
    pub fn new(content: Vec<T>, height: usize, width: usize) -> (m: Self)
        ensures
            m.rows() == height,
            m.cols() == width,
            m.elems() == content@,
    {
        Matrix { height, width, content }
    }

    /// Creates a `Matrix<T>` from a vector of rows of type `Vec<T>`; every
    /// row must have the length of the first.
    pub fn from_rows(rows: Vec<Vec<T>>) -> (m: Self)
        requires
            rows.len() > 0,
            forall|i: int| 0 <= i < rows.len() ==> #[trigger] rows@[i].len() == rows@[0].len(),
        ensures
            m.rows() == rows.len(),
            m.cols() == rows@[0].len(),
            m.elems() == flatten_rows(rows@),
            m.shaped(),
            m.rows() * m.cols() <= usize::MAX,
    {
        let mut content = Vec::<T>::new();
        let height = rows.len();
        let width = rows[0].len();
        let mut i: usize = 0;
        while i < height
            invariant
                height == rows.len(),
                width == rows@[0].len(),
                forall|k: int| 0 <= k < rows.len() ==> #[trigger] rows@[k].len() == rows@[0].len(),
                i <= height,
                content@ == flatten_rows(rows@.subrange(0, i as int)),
                content@.len() == i * width,
            decreases height - i,
        {
            let ghost before = content@;
            assert(rows@[i as int].len() == rows@[0].len());
            let mut j: usize = 0;
            while j < width
                invariant
                    height == rows.len(),
                    width == rows@[0].len(),
                    rows@[i as int].len() == width,
                    forall|k: int| 0 <= k < rows.len() ==> #[trigger] rows@[k].len() == rows@[0].len(),
                    i < height,
                    j <= width,
                    content@ == before + rows@[i as int]@.subrange(0, j as int),
                decreases width - j,
            {
                content.push(rows[i][j]);
                assert(rows@[i as int]@.subrange(0, j + 1) =~= rows@[i as int]@.subrange(0, j as int).push(
                    rows@[i as int]@[j as int],
                ));
                j = j + 1;
            }
            proof {
                assert(rows@[i as int]@.subrange(0, width as int) =~= rows@[i as int]@);
                assert(content@.len() == i * width + width);
                let prefix = rows@.subrange(0, i + 1);
                assert(prefix.drop_last() =~= rows@.subrange(0, i as int));
                assert(prefix.map_values(|r: Vec<T>| r@) =~= rows@.subrange(0, i as int).map_values(
                    |r: Vec<T>| r@,
                ).push(rows@[i as int]@));
                rows@.subrange(0, i as int).map_values(|r: Vec<T>| r@).lemma_flatten_push(
                    rows@[i as int]@,
                );
                assert(i * width + width == (i + 1) * width) by (nonlinear_arith);
            }
            i = i + 1;
        }
        assert(rows@.subrange(0, height as int) =~= rows@);
        // the content's length, a `usize`, bounds the size
        let size: usize = content.len();
        assert(size == height * width);
        Matrix::new(content, height, width)
    }

    /// Creates a square matrix with `diag` on the diagonal and `fill`
    /// everywhere else.
    pub fn from_diagonal(diag: Vec<T>, fill: T) -> (m: Matrix<T>)
        requires
            diag.len() > 0,
            diag.len() * diag.len() <= usize::MAX,
        ensures
            m.rows() == diag.len(),
            m.cols() == diag.len(),
            m.shaped(),
            forall|y: int, x: int|
                0 <= y < diag.len() && 0 <= x < diag.len() ==> #[trigger] m.at(y, x) == if y == x {
                    diag@[y]
                } else {
                    fill
                },
    {
        let size = diag.len();
        let mut content = Vec::<T>::new();
        content.push(diag[0]);
        proof {
            vstd::arithmetic::div_mod::lemma_fundamental_div_mod_converse(0, (size + 1) as int, 0, 0);
        }
        let mut elem: usize = 1;
        while elem < size
            invariant
                size == diag.len(),
                size * size <= usize::MAX,
                1 <= elem <= size,
                content@.len() == (elem - 1) * (size + 1) + 1,
                forall|k: int|
                    0 <= k < content@.len() ==> #[trigger] content@[k] == if k % (size + 1) == 0 {
                        diag@[k / (size + 1)]
                    } else {
                        fill
                    },
            decreases size - elem,
        {
            let ghost before = content@;
            let mut k: usize = 0;
            while k < size
                invariant
                    size == diag.len(),
                    1 <= elem < size,
                    k <= size,
                    content@ == before + Seq::new(k as nat, |i: int| fill),
                decreases size - k,
            {
                content.push(fill);
                assert(Seq::new((k + 1) as nat, |i: int| fill) =~= Seq::new(k as nat, |i: int| fill).push(
                    fill,
                ));
                k = k + 1;
            }
            content.push(diag[elem]);
            proof {
                let s = (size + 1) as int;
                let base = (elem - 1) * s + 1;
                assert(base + s == elem * s + 1) by (nonlinear_arith)
                    requires
                        base == (elem - 1) * s + 1,
                ;
                assert forall|j: int| 0 <= j < content@.len() implies #[trigger] content@[j] == if j % s
                    == 0 {
                    diag@[j / s]
                } else {
                    fill
                } by {
                    if j >= base {
                        lemma_diagonal_block(elem as int, s, j);
                    }
                }
            }
            elem = elem + 1;
        }
        proof {
            let s = (size + 1) as int;
            assert((size - 1) * s + 1 == size * size) by (nonlinear_arith)
                requires
                    s == size + 1,
            ;
        }
        let m = Matrix::new(content, size, size);
        proof {
            assert forall|y: int, x: int| 0 <= y < size && 0 <= x < size implies #[trigger] m.at(y, x)
                == if y == x {
                diag@[y]
            } else {
                fill
            } by {
                lemma_diagonal_position(size as int, y, x);
            }
        }
        m
    }

    /// Replaces the content, if it has `height * width` elements.
    pub fn update_content(self: &mut Self, content: Vec<T>) -> (r: Result<(), MatrixError>)
        requires
            old(self).rows() * old(self).cols() <= usize::MAX,
        ensures
            final(self).rows() == old(self).rows(),
            final(self).cols() == old(self).cols(),
            old(self).rows() * old(self).cols() == content.len() ==> r is Ok && final(self).elems()
                == content@,
            old(self).rows() * old(self).cols() != content.len() ==> final(self).elems() == old(
                self,
            ).elems() && r == Err::<(), MatrixError>(
                MatrixError::DifferentContentSize((old(self).rows() * old(self).cols()) as usize, content.len()),
            ),
    {
        proof {
            assert(self.width * self.height == self.height * self.width) by (nonlinear_arith);
        }
        if self.width * self.height == content.len() {
            self.content = content;
            Ok(())
        } else {
            Err(MatrixError::DifferentContentSize(self.width * self.height, content.len()))
        }
    }

    pub fn get_content(self: &Self) -> (r: &Vec<T>)
        ensures
            r@ == self.elems(),
    {
        &self.content
    }

    pub fn consume_content(self: Self) -> (r: Vec<T>)
        ensures
            r@ == self.elems(),
    {
        self.content
    }

    pub fn height(self: &Self) -> (r: usize)
        ensures
            r == self.rows(),
    {
        self.height
    }

    pub fn width(self: &Self) -> (r: usize)
        ensures
            r == self.cols(),
    {
        self.width
    }

    /// The content has `height * width` elements.
    pub fn check_size(self: &Self) -> (r: bool)
        requires
            self.rows() * self.cols() <= usize::MAX,
        ensures
            r == self.shaped(),
    {
        proof {
            assert(self.width * self.height == self.height * self.width) by (nonlinear_arith);
        }
        self.width * self.height == self.content.len()
    }

    /// Grows the matrix to `height` rows of `width` columns, keeping every
    /// element at its row and column and filling the new positions with
    /// `element`.
    pub fn pad(self: &mut Self, width: usize, height: usize, element: T)
        requires
            width >= old(self).cols(),
            height >= old(self).rows(),
            width * height <= usize::MAX,
            old(self).rows() * old(self).cols() <= old(self).elems().len(),
        ensures
            final(self).rows() == height,
            final(self).cols() == width,
            final(self).shaped(),
            forall|y: int, x: int|
                0 <= y < height && 0 <= x < width ==> #[trigger] final(self).at(y, x) == if x < old(
                    self,
                ).cols() && y < old(self).rows() {
                    old(self).at(y, x)
                } else {
                    element
                },
    {
        let ghost old_self = *self;
        let len = self.content.len();
        let mut content: Vec<T> = Vec::new();
        let total = width * height;
        let mut k: usize = 0;
        while k < total
            invariant
                k <= total,
                content@ == Seq::new(k as nat, |i: int| element),
            decreases total - k,
        {
            content.push(element);
            assert(Seq::new((k + 1) as nat, |i: int| element) =~= Seq::new(k as nat, |i: int| element).push(element));
            k = k + 1;
        }
        let mut x: usize = 0;
        while x < width
            invariant
                *self == old_self,
                len == self.elems().len(),
                width >= self.cols(),
                height >= self.rows(),
                total == width * height,
                self.rows() * self.cols() <= self.elems().len(),
                x <= width,
                content@.len() == total,
                forall|j: int|
                    0 <= j < total ==> #[trigger] content@[j] == if j % (width as int) < x && j
                        % (width as int) < self.cols() && j / (width as int) < self.rows() {
                        self.at(j / (width as int), j % (width as int))
                    } else {
                        element
                    },
            decreases width - x,
        {
            let mut y: usize = 0;
            while y < height
                invariant
                    *self == old_self,
                    len == self.elems().len(),
                    width >= self.cols(),
                    height >= self.rows(),
                    total == width * height,
                    self.rows() * self.cols() <= self.elems().len(),
                    x < width,
                    y <= height,
                    content@.len() == total,
                    forall|j: int|
                        0 <= j < total ==> #[trigger] content@[j] == if (j % (width as int) < x || (j
                            % (width as int) == x && j / (width as int) < y)) && j % (width as int)
                            < self.cols() && j / (width as int) < self.rows() {
                            self.at(j / (width as int), j % (width as int))
                        } else {
                            element
                        },
                decreases height - y,
            {
                proof {
                    lemma_position(width as int, height as int, y as int, x as int);
                }
                if x < self.width && y < self.height {
                    proof {
                        lemma_position(self.cols() as int, self.rows() as int, y as int, x as int);
                        assert(self.cols() * self.rows() == self.rows() * self.cols()) by (nonlinear_arith);
                    }
                    content.set(width * y + x, self.content[self.width * y + x]);
                }
                proof {
                    assert forall|j: int|
                        0 <= j < total && #[trigger] (j % (width as int)) == x && j / (width as int) == y implies j
                        == width * y + x by {
                        vstd::arithmetic::div_mod::lemma_fundamental_div_mod(j, width as int);
                    }
                }
                y = y + 1;
            }
            proof {
                assert forall|j: int| 0 <= j < total && #[trigger] (j % (width as int)) == x implies j / (
                width as int) < height by {
                    vstd::arithmetic::div_mod::lemma_fundamental_div_mod(j, width as int);
                    assert(j / (width as int) < height) by (nonlinear_arith)
                        requires
                            j == (width as int) * (j / (width as int)) + j % (width as int),
                            0 <= j % (width as int),
                            j < width * height,
                            width > 0,
                    ;
                }
            }
            x = x + 1;
        }
        self.width = width;
        self.height = height;
        self.content = content;
        proof {
            assert(width * height == height * width) by (nonlinear_arith);
            assert forall|y: int, x: int| 0 <= y < height && 0 <= x < width implies #[trigger] self.at(
                y,
                x,
            ) == if x < old_self.cols() && y < old_self.rows() {
                old_self.at(y, x)
            } else {
                element
            } by {
                lemma_position(width as int, height as int, y, x);
            }
        }
    }

    /// The element in column `x` of row `y`, or an error with the 1-based
    /// position asked for and the width and height of the matrix.
    pub fn get_element(self: &Self, x: usize, y: usize) -> (r: Result<T, MatrixError>)
        requires
            x < usize::MAX,
            y < usize::MAX,
            x < self.cols() && y < self.rows() ==> y * self.cols() + x < self.elems().len(),
        ensures
            x < self.cols() && y < self.rows() ==> r == Ok::<T, MatrixError>(self.at(y as int, x as int)),
            !(x < self.cols() && y < self.rows()) ==> r == Err::<T, MatrixError>(
                MatrixError::IncompatibleShapes(
                    ((x + 1) as usize, (y + 1) as usize),
                    (self.cols() as usize, self.rows() as usize),
                ),
            ),
    {
        let width = self.width();
        let height = self.height();
        let len = self.content.len();
        if x >= width || y >= height {
            return Err(MatrixError::IncompatibleShapes((x + 1, y + 1), (width, height)));
        } else {
            proof {
                lemma_position(width as int, height as int, y as int, x as int);
            }
            return Ok(self.get_content()[y * width + x]);
        }
    }
}

/// Position `y * width + x` of a `width` by `height` grid is inside it and
/// decodes back to row `y` and column `x`.
proof fn lemma_position(width: int, height: int, y: int, x: int)
    requires
        0 <= y < height,
        0 <= x < width,
    ensures
        0 <= y * width + x < width * height,
        (y * width + x) / width == y,
        (y * width + x) % width == x,
        width * y == y * width,
{
    assert(0 <= y * width + x < width * height) by (nonlinear_arith)
        requires
            0 <= y < height,
            0 <= x < width,
    ;
    vstd::arithmetic::div_mod::lemma_fundamental_div_mod_converse(y * width + x, width, y, x);
    assert(width * y == y * width) by (nonlinear_arith);
}

/// In the content of a diagonal matrix of side `s - 1`, the block appended
/// for row `elem` holds `s - 1` fill values followed by the diagonal one.
proof fn lemma_diagonal_block(elem: int, s: int, j: int)
    requires
        s >= 2,
        elem >= 1,
        (elem - 1) * s + 1 <= j < elem * s + 1,
    ensures
        (j % s == 0) == (j == elem * s),
        j == elem * s ==> j / s == elem,
{
    let base = (elem - 1) * s + 1;
    vstd::arithmetic::div_mod::lemma_fundamental_div_mod(j, s);
    let q = j / s;
    let r = j % s;
    assert(q == elem - 1 || q == elem) by (nonlinear_arith)
        requires
            j == s * q + r,
            0 <= r < s,
            (elem - 1) * s + 1 <= j < elem * s + 1,
            s >= 2,
    ;
    assert(s * elem == elem * s) by (nonlinear_arith);
    assert(s * (elem - 1) == (elem - 1) * s) by (nonlinear_arith);
    if r == 0 {
        assert(q != elem - 1) by (nonlinear_arith)
            requires
                j == s * q,
                (elem - 1) * s + 1 <= j,
        ;
        assert(j == elem * s);
    }
    if j == elem * s {
        vstd::arithmetic::div_mod::lemma_fundamental_div_mod_converse(j, s, elem, 0);
    }
}

/// Position `y * size + x` of a diagonal matrix lies on the diagonal exactly
/// when `y == x`, and then it is the `y`-th multiple of `size + 1`.
proof fn lemma_diagonal_position(size: int, y: int, x: int)
    requires
        0 <= y < size,
        0 <= x < size,
    ensures
        ((y * size + x) % (size + 1) == 0) == (y == x),
        y == x ==> (y * size + x) / (size + 1) == y,
        0 <= y * size + x < size * size,
{
    let s = size + 1;
    let j = y * size + x;
    assert(0 <= j < size * size) by (nonlinear_arith)
        requires
            0 <= y < size,
            0 <= x < size,
            j == y * size + x,
    ;
    // j == y * s + (x - y)
    assert(j == y * s + (x - y)) by (nonlinear_arith)
        requires
            j == y * size + x,
            s == size + 1,
    ;
    if x >= y {
        vstd::arithmetic::div_mod::lemma_fundamental_div_mod_converse(j, s, y, x - y);
    } else {
        assert(j == (y - 1) * s + (s + x - y)) by (nonlinear_arith)
            requires
                j == y * s + (x - y),
        ;
        vstd::arithmetic::div_mod::lemma_fundamental_div_mod_converse(j, s, y - 1, s + x - y);
    }
}

/// Elements `c, c + 3, c + 6, ...` of an interleaved sequence: one channel of
/// three.
pub open spec fn channel_of<T>(s: Seq<T>, c: int) -> Seq<T> {
    Seq::new((s.len() / 3) as nat, |i: int| s[3 * i + c])
}

/// Splits a matrix of interleaved RGB samples (three columns per pixel)
/// into one matrix per channel, each with a third of the columns.
pub fn split3<T: Copy>(buf: Matrix<T>) -> (r: (Matrix<T>, Matrix<T>, Matrix<T>))
    requires
        buf.rows() * buf.cols() <= usize::MAX,
        buf.shaped(),
        buf.elems().len() % 3 == 0,
        buf.elems().len() > 0,
        buf.rows() * (buf.cols() / 3) == buf.elems().len() / 3,
    ensures
        r.0.rows() == buf.rows() && r.1.rows() == buf.rows() && r.2.rows() == buf.rows(),
        r.0.cols() == buf.cols() / 3 && r.1.cols() == buf.cols() / 3 && r.2.cols() == buf.cols() / 3,
        r.0.elems() == channel_of(buf.elems(), 0),
        r.1.elems() == channel_of(buf.elems(), 1),
        r.2.elems() == channel_of(buf.elems(), 2),
        r.0.shaped() && r.1.shaped() && r.2.shaped(),
{
    let height = buf.height();
    let width = buf.width();
    let content = buf.consume_content();
    let len = content.len();
    let n = len / 3;
    let mut r_vec: Vec<T> = Vec::new();
    let mut g_vec: Vec<T> = Vec::new();
    let mut b_vec: Vec<T> = Vec::new();
    let mut i: usize = 0;
    while i < n
        invariant
            len == content@.len(),
            n == len / 3,
            i <= n,
            r_vec@ == channel_of(content@, 0).subrange(0, i as int),
            g_vec@ == channel_of(content@, 1).subrange(0, i as int),
            b_vec@ == channel_of(content@, 2).subrange(0, i as int),
        decreases n - i,
    {
        let (r, g, b) = (content[i * 3], content[i * 3 + 1], content[i * 3 + 2]);
        r_vec.push(r);
        g_vec.push(g);
        b_vec.push(b);
        assert(r_vec@ =~= channel_of(content@, 0).subrange(0, i + 1));
        assert(g_vec@ =~= channel_of(content@, 1).subrange(0, i + 1));
        assert(b_vec@ =~= channel_of(content@, 2).subrange(0, i + 1));
        i = i + 1;
    }
    assert(r_vec@ =~= channel_of(content@, 0));
    assert(g_vec@ =~= channel_of(content@, 1));
    assert(b_vec@ =~= channel_of(content@, 2));
    (Matrix::new(r_vec, height, width / 3), Matrix::new(g_vec, height, width / 3), Matrix::new(b_vec, height, width / 3))
}

/// Entry (`row`, `col`) of the product `a * b` after the first `k` terms of
/// the sum, starting from `zero`: `zero + a[row][0] * b[0][col] + ...`.
pub open spec fn partial_dot<T, Q>(
    a: Seq<T>,
    a_w: int,
    b: Seq<Q>,
    b_w: int,
    row: int,
    col: int,
    k: int,
    zero: T,
) -> T where T: Add<Output = T> + Mul<Q, Output = T>
    decreases k,
{
    if k <= 0 {
        zero
    } else {
        partial_dot(a, a_w, b, b_w, row, col, k - 1, zero).add_spec(
            a[a_w * row + (k - 1)].mul_spec(b[b_w * (k - 1) + col]),
        )
    }
}

/// Every step of every entry of the product is defined for the element
/// type (for integers: no step overflows).
pub open spec fn product_defined<T, Q>(a: &Matrix<T>, b: &Matrix<Q>) -> bool where
    T: Add<Output = T> + Mul<Q, Output = T> + Sub<Output = T>,
 {
    a.rows() * b.cols() > 0 ==> {
        &&& a.elems().len() > 0
        &&& a.elems()[0].sub_req(a.elems()[0])
        &&& forall|row: int, col: int, k: int|
            0 <= row < a.rows() && 0 <= col < b.cols() && 0 <= k < a.cols() ==> {
                &&& #[trigger] a.elems()[a.cols() * row + k].mul_req(b.elems()[b.cols() * k + col])
                &&& partial_dot(
                    a.elems(),
                    a.cols() as int,
                    b.elems(),
                    b.cols() as int,
                    row,
                    col,
                    k,
                    a.elems()[0].sub_spec(a.elems()[0]),
                ).add_req(a.elems()[a.cols() * row + k].mul_spec(b.elems()[b.cols() * k + col]))
            }
    }
}

/// Arithmetic of the element type follows its specification (true of the
/// integer types).
pub open spec fn arithmetic_obeys<T, Q>() -> bool where
    T: Add<Output = T> + Mul<Q, Output = T> + Sub<Output = T>,
 {
    <T as AddSpec>::obeys_add_spec() && <T as MulSpec<Q>>::obeys_mul_spec()
        && <T as SubSpec>::obeys_sub_spec()
}

/// Where the shapes fit, the product can be computed: each matrix holds one
/// element per position, the result's size fits in memory, the element type
/// follows its arithmetic specification and each step of each entry is
/// defined.
pub open spec fn product_computable<T, Q>(a: &Matrix<T>, b: &Matrix<Q>) -> bool where
    T: Add<Output = T> + Mul<Q, Output = T> + Sub<Output = T>,
 {
    a.cols() == b.rows() ==> {
        &&& a.shaped()
        &&& b.shaped()
        &&& a.rows() * b.cols() <= usize::MAX
        &&& arithmetic_obeys::<T, Q>()
        &&& product_defined(a, b)
    }
}

impl<Q: Copy, T: Add<Output = T> + Mul<Q, Output = T> + Sub<Output = T> + Copy> vstd::std_specs::ops::MulSpecImpl<Matrix<Q>> for Matrix<T> {
    /// The product is described by the `ensures` of `mul` itself.
    open spec fn obeys_mul_spec() -> bool {
        false
    }

    open spec fn mul_req(self, rhs: Matrix<Q>) -> bool {
        product_computable(&self, &rhs)
    }

    open spec fn mul_spec(self, rhs: Matrix<Q>) -> Self::Output {
        arbitrary()
    }
}

impl<Q: Copy, T: Add<Output = T> + Mul<Q, Output = T> + Sub<Output = T> + Copy> Mul<Matrix<Q>> for Matrix<T> {
    type Output = Result<Self, MatrixError>;

    /// Matrix product: entry (`row`, `col`) is the sum over `k` of
    /// `self[row][k] * rhs[k][col]`, summed from `self[0][0] - self[0][0]`.
    fn mul(self, rhs: Matrix<Q>) -> (r: Self::Output)
        ensures
            self.cols() != rhs.rows() ==> r == Err::<Matrix<T>, MatrixError>(
                MatrixError::IncompatibleShapes(
                    (self.rows() as usize, self.cols() as usize),
                    (rhs.rows() as usize, rhs.cols() as usize),
                ),
            ),
            self.cols() == rhs.rows() ==> {
                &&& r is Ok
                &&& r->Ok_0.rows() == self.rows()
                &&& r->Ok_0.cols() == rhs.cols()
                &&& r->Ok_0.shaped()
                &&& forall|row: int, col: int|
                    0 <= row < self.rows() && 0 <= col < rhs.cols() ==> #[trigger] r->Ok_0.at(row, col)
                        == partial_dot(
                        self.elems(),
                        self.cols() as int,
                        rhs.elems(),
                        rhs.cols() as int,
                        row,
                        col,
                        self.cols() as int,
                        self.elems()[0].sub_spec(self.elems()[0]),
                    )
            },
    {
        let height = self.height;
        let width = self.width;
        if width != rhs.height {
            return Err(MatrixError::IncompatibleShapes((height, width), (rhs.height, rhs.width)));
        }
        let rw = rhs.width;
        let ghost a = self.elems();
        let ghost b = rhs.elems();
        let ghost zero = a[0].sub_spec(a[0]);
        let a_len = self.content.len();
        let b_len = rhs.content.len();
        let mut result: Vec<T> = Vec::new();
        let mut row: usize = 0;
        while row < height
            invariant
                a.len() == a_len,
                b.len() == b_len,
                height == self.rows(),
                width == self.cols(),
                width == rhs.rows(),
                rw == rhs.cols(),
                a == self.elems(),
                b == rhs.elems(),
                self.content@ == a,
                rhs.content@ == b,
                zero == a[0].sub_spec(a[0]),
                product_computable(&self, &rhs),
                row <= height,
                result@.len() == row * rw,
                forall|y: int, x: int|
                    0 <= y < row && 0 <= x < rw ==> #[trigger] result@[y * rw + x] == partial_dot(
                        a,
                        width as int,
                        b,
                        rw as int,
                        y,
                        x,
                        width as int,
                        zero,
                    ),
            decreases height - row,
        {
            let mut col: usize = 0;
            let ghost before = result@;
            while col < rw
                invariant
                    a.len() == a_len,
                    b.len() == b_len,
                    height == self.rows(),
                    width == self.cols(),
                    width == rhs.rows(),
                    rw == rhs.cols(),
                    a == self.elems(),
                    b == rhs.elems(),
                    self.content@ == a,
                    rhs.content@ == b,
                    zero == a[0].sub_spec(a[0]),
                    product_computable(&self, &rhs),
                    row < height,
                    col <= rw,
                    before.len() == row * rw,
                    result@.len() == row * rw + col,
                    forall|k: int| 0 <= k < before.len() ==> #[trigger] result@[k] == before[k],
                    forall|x: int|
                        0 <= x < col ==> #[trigger] result@[row * rw + x] == partial_dot(
                            a,
                            width as int,
                            b,
                            rw as int,
                            row as int,
                            x,
                            width as int,
                            zero,
                        ),
                decreases rw - col,
            {
                proof {
                    assert(self.rows() * rhs.cols() > 0) by (nonlinear_arith)
                        requires
                            row < height,
                            col < rw,
                            height == self.rows(),
                            rw == rhs.cols(),
                    ;
                }
                let mut val = self.content[0] - self.content[0];
                let mut j: usize = 0;
                while j < width
                    invariant
                        a.len() == a_len,
                        b.len() == b_len,
                        height == self.rows(),
                        width == self.cols(),
                        width == rhs.rows(),
                        rw == rhs.cols(),
                        a == self.elems(),
                        b == rhs.elems(),
                        self.content@ == a,
                        rhs.content@ == b,
                        product_computable(&self, &rhs),
                        self.rows() * rhs.cols() > 0,
                        row < height,
                        col < rw,
                        j <= width,
                        val == partial_dot(a, width as int, b, rw as int, row as int, col as int, j as int, zero),
                        zero == a[0].sub_spec(a[0]),
                    decreases width - j,
                {
                    proof {
                        lemma_position(width as int, height as int, row as int, j as int);
                        lemma_position(rw as int, width as int, j as int, col as int);
                        assert(self.cols() * row + j == width * row + j);
                    }
                    let prod = self.content[width * row + j] * rhs.content[rw * j + col];
                    proof {
                        assert(a[self.cols() * row + j].mul_req(b[rhs.cols() * j + col]));
                        assert(prod == a[width * row + j].mul_spec(b[rw * j + col]));
                    }
                    val = val + prod;
                    j = j + 1;
                }
                result.push(val);
                proof {
                    lemma_position(rw as int, height as int, row as int, col as int);
                }
                col = col + 1;
            }
            proof {
                assert forall|y: int, x: int|
                    0 <= y < row + 1 && 0 <= x < rw implies #[trigger] result@[y * rw + x] == partial_dot(
                        a,
                        width as int,
                        b,
                        rw as int,
                        y,
                        x,
                        width as int,
                        zero,
                    ) by {
                    lemma_position(rw as int, row as int + 1, y, x);
                    if y < row {
                        lemma_position(rw as int, row as int, y, x);
                        assert(rw * row == row * rw) by (nonlinear_arith);
                    }
                }
                assert(result@.len() == (row + 1) * rw) by (nonlinear_arith)
                    requires
                        result@.len() == row * rw + rw,
                ;
            }
            row = row + 1;
        }
        let out = Matrix { height, width: rw, content: result };
        proof {
            assert(out.shaped()) by (nonlinear_arith)
                requires
                    out.elems().len() == height * rw,
                    out.rows() == height,
                    out.cols() == rw,
            ;
            assert forall|y: int, x: int| 0 <= y < out.rows() && 0 <= x < out.cols() implies #[trigger] out.at(y, x) == partial_dot(
                a,
                width as int,
                b,
                rw as int,
                y,
                x,
                width as int,
                zero,
            ) by {
                assert(out.at(y, x) == result@[y * rw + x]);
            }
        }
        Ok(out)
    }
}

/// Where the shapes agree, the difference can be computed: `rhs` holds an
/// element for each of `a`'s and each element difference is defined.
pub open spec fn difference_computable<T>(a: &Matrix<T>, b: &Matrix<T>) -> bool where
    T: Sub<Output = T>,
 {
    (a.cols() == b.cols() && a.rows() == b.rows()) ==> {
        &&& a.elems().len() <= b.elems().len()
        &&& forall|i: int| 0 <= i < a.elems().len() ==> #[trigger] a.elems()[i].sub_req(b.elems()[i])
    }
}

impl<T: Sub<Output = T> + Copy> vstd::std_specs::ops::SubSpecImpl<Matrix<T>> for Matrix<T> {
    /// The difference is described by the `ensures` of `sub` itself.
    open spec fn obeys_sub_spec() -> bool {
        false
    }

    open spec fn sub_req(self, rhs: Matrix<T>) -> bool {
        difference_computable(&self, &rhs)
    }

    open spec fn sub_spec(self, rhs: Matrix<T>) -> Self::Output {
        arbitrary()
    }
}

impl<T: Sub<Output = T> + Copy> Sub<Matrix<T>> for Matrix<T> {
    type Output = Result<Matrix<T>, MatrixError>;

    /// Element-wise difference of two matrices of the same shape.
    fn sub(self, rhs: Matrix<T>) -> (r: Self::Output)
        ensures
            !(self.cols() == rhs.cols() && self.rows() == rhs.rows()) ==> r == Err::<Matrix<T>, MatrixError>(
                MatrixError::IncompatibleShapes(
                    (self.cols() as usize, self.rows() as usize),
                    (rhs.cols() as usize, rhs.rows() as usize),
                ),
            ),
            (self.cols() == rhs.cols() && self.rows() == rhs.rows()) ==> {
                &&& r is Ok
                &&& r->Ok_0.rows() == self.rows()
                &&& r->Ok_0.cols() == self.cols()
                &&& r->Ok_0.elems().len() == self.elems().len()
                &&& <T as SubSpec>::obeys_sub_spec() ==> forall|i: int|
                    0 <= i < self.elems().len() ==> #[trigger] r->Ok_0.elems()[i] == self.elems()[i].sub_spec(
                        rhs.elems()[i],
                    )
            },
    {
        let x: usize = self.width;
        let y: usize = self.height;
        if !(x == rhs.width && y == rhs.height) {
            return Err(MatrixError::IncompatibleShapes((x, y), (rhs.width, rhs.height)));
        }
        let mut content: Vec<T> = Vec::new();
        let n: usize = self.content.len();
        let mut i: usize = 0;
        while i < n
            invariant
                n == self.elems().len(),
                difference_computable(&self, &rhs),
                x == self.cols() && x == rhs.cols(),
                y == self.rows() && y == rhs.rows(),
                i <= n,
                content@.len() == i,
                <T as SubSpec>::obeys_sub_spec() ==> forall|k: int|
                    0 <= k < i ==> #[trigger] content@[k] == self.elems()[k].sub_spec(rhs.elems()[k]),
            decreases n - i,
        {
            let d: T = self.content[i] - rhs.content[i];
            content.push(d);
            i = i + 1;
        }
        Ok(Matrix { height: y, width: x, content })
    }
}

/// Where the shapes agree, the sum can be computed: `rhs` holds an element
/// for each of `a`'s and no element sum exceeds `u8::MAX`.
pub open spec fn sum_computable(a: &Matrix<u8>, b: &Matrix<u8>) -> bool {
    (a.cols() == b.cols() && a.rows() == b.rows()) ==> {
        &&& a.elems().len() <= b.elems().len()
        &&& forall|i: int| 0 <= i < a.elems().len() ==> #[trigger] a.elems()[i] + b.elems()[i] <= u8::MAX
    }
}

impl vstd::std_specs::ops::AddSpecImpl<Matrix<u8>> for Matrix<u8> {
    /// The sum is described by the `ensures` of `add` itself.
    open spec fn obeys_add_spec() -> bool {
        false
    }

    open spec fn add_req(self, rhs: Matrix<u8>) -> bool {
        sum_computable(&self, &rhs)
    }

    open spec fn add_spec(self, rhs: Matrix<u8>) -> Self::Output {
        arbitrary()
    }
}

impl Add<Matrix<u8>> for Matrix<u8> {
    type Output = Result<Matrix<u8>, MatrixError>;

    /// Element-wise sum of two byte matrices of the same shape.
    fn add(self, rhs: Matrix<u8>) -> (r: Self::Output)
        ensures
            !(self.cols() == rhs.cols() && self.rows() == rhs.rows()) ==> r == Err::<Matrix<u8>, MatrixError>(
                MatrixError::IncompatibleShapes(
                    (self.cols() as usize, self.rows() as usize),
                    (rhs.cols() as usize, rhs.rows() as usize),
                ),
            ),
            (self.cols() == rhs.cols() && self.rows() == rhs.rows()) ==> {
                &&& r is Ok
                &&& r->Ok_0.rows() == self.rows()
                &&& r->Ok_0.cols() == self.cols()
                &&& r->Ok_0.elems().len() == self.elems().len()
                &&& forall|i: int|
                    0 <= i < self.elems().len() ==> #[trigger] r->Ok_0.elems()[i] == self.elems()[i]
                        + rhs.elems()[i]
            },
    {
        let x: usize = self.width;
        let y: usize = self.height;
        if !(x == rhs.width && y == rhs.height) {
            return Err(MatrixError::IncompatibleShapes((x, y), (rhs.width, rhs.height)));
        }
        let mut content: Vec<u8> = Vec::new();
        let n: usize = self.content.len();
        let mut i: usize = 0;
        while i < n
            invariant
                n == self.elems().len(),
                sum_computable(&self, &rhs),
                x == self.cols() && x == rhs.cols(),
                y == self.rows() && y == rhs.rows(),
                i <= n,
                content@.len() == i,
                forall|k: int| 0 <= k < i ==> #[trigger] content@[k] == self.elems()[k] + rhs.elems()[k],
            decreases n - i,
        {
            content.push(self.content[i] + rhs.content[i]);
            i = i + 1;
        }
        Ok(Matrix::new(content, y, x))
    }
}

impl<T: Clone> vstd::std_specs::convert::FromSpecImpl<Vec<T>> for Matrix<T> {
    open spec fn obeys_from_spec() -> bool {
        true
    }

    /// A vector becomes a column: one row per element.
    closed spec fn from_spec(v: Vec<T>) -> Matrix<T> {
        Matrix { height: v@.len() as usize, width: 1, content: v }
    }
}

impl<T: Clone> From<Vec<T>> for Matrix<T> {
    /// Turns a vector into a column matrix with one row per element.
    fn from(value: Vec<T>) -> (m: Matrix<T>)
        ensures
            m.rows() == value@.len(),
            m.cols() == 1,
            m.elems() == value@,
    {
        let len: usize = value.len();
        Matrix { height: len, width: 1, content: value }
    }
}

} // verus!
