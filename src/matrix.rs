//! Dense row-major matrices of 16-bit signed integers, with the modular
//! product, the transpose and the little-endian wire format.

use vstd::prelude::*;

use crate::FrodoError;

verus! {

/// Modulus of the matrix product, 2^15.
pub const Q: i32 = 32768;

/// Remainder whose sign follows the dividend, as Rust's `%` on signed
/// integers computes it.
pub open spec fn trunc_rem(a: int, m: int) -> int {
    if a >= 0 {
        a % m
    } else {
        -((-a) % m)
    }
}

/// The value of the 16 bits of `v` read as an unsigned number.
pub open spec fn unsigned16(v: i16) -> int {
    if v >= 0 {
        v as int
    } else {
        v as int + 65536
    }
}

/// Low byte of the two's complement form of `v`.
pub open spec fn lo_byte(v: i16) -> u8 {
    (unsigned16(v) % 256) as u8
}

/// High byte of the two's complement form of `v`.
pub open spec fn hi_byte(v: i16) -> u8 {
    (unsigned16(v) / 256) as u8
}

/// The signed 16-bit integer whose little-endian bytes are `lo`, `hi`.
pub open spec fn i16_from_le(lo: u8, hi: u8) -> i16 {
    let u = lo as int + 256 * hi as int;
    if u < 32768 {
        u as i16
    } else {
        (u - 65536) as i16
    }
}

/// Each value as two little-endian bytes, one after the other.
pub open spec fn i16s_to_le(vals: Seq<i16>) -> Seq<u8> {
    Seq::new(
        2 * vals.len(),
        |k: int|
            if k % 2 == 0 {
                lo_byte(vals[k / 2])
            } else {
                hi_byte(vals[k / 2])
            },
    )
}

/// The first `n` little-endian 16-bit values of `bytes`.
pub open spec fn le_to_i16s(bytes: Seq<u8>, n: nat) -> Seq<i16> {
    Seq::new(n, |i: int| i16_from_le(bytes[2 * i], bytes[2 * i + 1]))
}

/// Decoding the encoding of a value gives the value back.
pub proof fn lemma_i16_le_round_trip(v: i16)
    ensures
        i16_from_le(lo_byte(v), hi_byte(v)) == v,
{
    let u = unsigned16(v);
    assert(0 <= u < 65536);
    assert(u % 256 + 256 * (u / 256) == u);
}

/// Decoding the encoding of a sequence of values gives the sequence back.
pub proof fn lemma_i16s_le_round_trip(vals: Seq<i16>)
    ensures
        i16s_to_le(vals).len() == 2 * vals.len(),
        le_to_i16s(i16s_to_le(vals), vals.len()) == vals,
{
    let b = i16s_to_le(vals);
    assert forall|i: int| 0 <= i < vals.len() implies #[trigger] le_to_i16s(b, vals.len())[i]
        == vals[i] by {
        assert((2 * i) % 2 == 0 && (2 * i) / 2 == i);
        assert((2 * i + 1) % 2 == 1 && (2 * i + 1) / 2 == i);
        lemma_i16_le_round_trip(vals[i]);
    }
    assert(le_to_i16s(b, vals.len()) =~= vals);
}

/// The exact low byte of `v`, as `v as u8` gives it.
pub fn low_byte(v: i16) -> (r: u8)
    ensures
        r == lo_byte(v),
{
    let w: i32 = if v >= 0 {
        v as i32
    } else {
        v as i32 + 65536
    };
    (w % 256) as u8
}

fn high_byte(v: i16) -> (r: u8)
    ensures
        r == hi_byte(v),
{
    let w: i32 = if v >= 0 {
        v as i32
    } else {
        v as i32 + 65536
    };
    (w / 256) as u8
}

fn read_i16_le(lo: u8, hi: u8) -> (r: i16)
    ensures
        r == i16_from_le(lo, hi),
{
    let u: i32 = lo as i32 + 256 * (hi as i32);
    if u < 32768 {
        u as i16
    } else {
        (u - 65536) as i16
    }
}

proof fn lemma_index_in_bounds(i: int, j: int, rows: int, cols: int)
    requires
        0 <= i < rows,
        0 <= j < cols,
    ensures
        0 <= i * cols <= i * cols + j < rows * cols,
{
    assert(i * cols + j < rows * cols) by (nonlinear_arith)
        requires
            0 <= i < rows,
            0 <= j < cols,
    ;
    assert(0 <= i * cols) by (nonlinear_arith)
        requires
            0 <= i,
            0 <= cols,
    ;
}

proof fn lemma_index_distinct(a: int, b: int, i: int, j: int, cols: int)
    requires
        0 <= a,
        0 <= i,
        0 <= b < cols,
        0 <= j < cols,
        a != i || b != j,
    ensures
        a * cols + b != i * cols + j,
{
    if a < i {
        assert((a + 1) * cols <= i * cols) by (nonlinear_arith)
            requires
                a + 1 <= i,
                0 <= cols,
        ;
        assert((a + 1) * cols == a * cols + cols) by (nonlinear_arith);
    } else if i < a {
        assert((i + 1) * cols <= a * cols) by (nonlinear_arith)
            requires
                i + 1 <= a,
                0 <= cols,
        ;
        assert((i + 1) * cols == i * cols + cols) by (nonlinear_arith);
    }
}

/// Accumulator of entry (`i`, `j`) of the product of the row-major
/// matrices `a` (with `n` columns) and `b` (with `p` columns) after its
/// first `k` terms: each step adds one term and takes the sign-following
/// remainder by `Q`.
pub open spec fn dot_acc(a: Seq<i16>, n: nat, b: Seq<i16>, p: nat, i: int, j: int, k: nat) -> int
    decreases k,
{
    if k == 0 {
        0
    } else {
        trunc_rem(
            dot_acc(a, n, b, p, i, j, (k - 1) as nat) + a[i * n + (k - 1)] as int * b[(k - 1) * p
                + j] as int,
            Q as int,
        )
    }
}

/// Every accumulator of the product lies strictly between `-Q` and `Q`.
pub proof fn lemma_dot_acc_bounds(a: Seq<i16>, n: nat, b: Seq<i16>, p: nat, i: int, j: int, k: nat)
    ensures
        -(Q as int) < dot_acc(a, n, b, p, i, j, k) < Q as int,
{
}

/// The row-major entries of the transpose of the `rows` x `cols` matrix
/// with entries `s`.
pub open spec fn transposed(s: Seq<i16>, rows: nat, cols: nat) -> Seq<i16> {
    Seq::new(cols * rows, |k: int| s[(k % rows as int) * cols + k / rows as int])
}

/// A `rows` x `cols` grid of 16-bit signed integers, stored row-major.
#[derive(Clone)]
pub struct Matrix {
    rows: usize,
    cols: usize,
    data: Vec<i16>,
}

impl Matrix {
    /// Number of rows.
    pub closed spec fn nrows(&self) -> nat {
        self.rows as nat
    }

    /// Number of columns.
    pub closed spec fn ncols(&self) -> nat {
        self.cols as nat
    }

    /// The entries in row-major order.
    pub closed spec fn entries(&self) -> Seq<i16> {
        self.data@
    }

    /// The storage holds exactly one entry per cell, and the cell count fits
    /// in a `usize`.
    pub open spec fn wf(&self) -> bool {
        &&& self.entries().len() == self.nrows() * self.ncols()
        &&& self.nrows() * self.ncols() <= usize::MAX
    }

    /// The entry in row `i`, column `j`.
    pub open spec fn entry(&self, i: int, j: int) -> i16 {
        self.entries()[i * self.ncols() + j]
    }

    /// A well-formed matrix of the given shape.
    pub open spec fn has_shape(&self, rows: nat, cols: nat) -> bool {
        self.wf() && self.nrows() == rows && self.ncols() == cols
    }

    /// A `rows` x `cols` matrix of zeros.
    pub fn new(rows: usize, cols: usize) -> (m: Matrix)
        requires
            rows * cols <= usize::MAX,
        ensures
            m.has_shape(rows as nat, cols as nat),
            forall|k: int| 0 <= k < rows * cols ==> #[trigger] m.entries()[k] == 0,
    {
        let n: usize = rows * cols;
        let mut data: Vec<i16> = Vec::new();
        let mut k: usize = 0;
        while k < n
            invariant
                k <= n,
                data@.len() == k,
                forall|t: int| 0 <= t < k ==> #[trigger] data@[t] == 0,
            decreases n - k,
        {
            data.push(0);
            k = k + 1;
        }
        Matrix { rows, cols, data }
    }

    /// The number of rows.
    pub fn nrows_exec(&self) -> (r: usize)
        ensures
            r == self.nrows(),
    {
        self.rows
    }

    /// The number of columns.
    pub fn ncols_exec(&self) -> (r: usize)
        ensures
            r == self.ncols(),
    {
        self.cols
    }

    /// The entry in row `row`, column `col`.
    pub fn get(&self, row: usize, col: usize) -> (r: i16)
        requires
            self.wf(),
            row < self.nrows(),
            col < self.ncols(),
        ensures
            r == self.entry(row as int, col as int),
    {
        proof {
            lemma_index_in_bounds(row as int, col as int, self.rows as int, self.cols as int);
        }
        self.data[row * self.cols + col]
    }

    /// The entry at row-major position `k`.
    pub(crate) fn get_flat(&self, k: usize) -> (r: i16)
        requires
            k < self.entries().len(),
        ensures
            r == self.entries()[k as int],
    {
        self.data[k]
    }

    /// Replaces the entry in row `row`, column `col` by `value`.
    pub fn set(&mut self, row: usize, col: usize, value: i16)
        requires
            old(self).wf(),
            row < old(self).nrows(),
            col < old(self).ncols(),
        ensures
            final(self).nrows() == old(self).nrows(),
            final(self).ncols() == old(self).ncols(),
            final(self).entries() == old(self).entries().update(
                row * old(self).ncols() + col,
                value,
            ),
            final(self).wf(),
            final(self).entry(row as int, col as int) == value,
            forall|a: int, b: int|
                0 <= a < old(self).nrows() && 0 <= b < old(self).ncols() && (a != row || b != col)
                    ==> #[trigger] final(self).entry(a, b) == old(self).entry(a, b),
    {
        proof {
            lemma_index_in_bounds(row as int, col as int, self.rows as int, self.cols as int);
        }
        let k = row * self.cols + col;
        self.data.set(k, value);
        proof {
            assert forall|a: int, b: int|
                0 <= a < self.rows && 0 <= b < self.cols && (a != row || b != col) implies #[trigger] self.entry(a, b)
                == old(self).entry(a, b) by {
                lemma_index_distinct(a, b, row as int, col as int, self.cols as int);
                lemma_index_in_bounds(a, b, self.rows as int, self.cols as int);
            }
        }
    }
}

impl Matrix {
    /// The product `self` * `other`. Entry (i, j) is the dot product of row
    /// i and column j, accumulated in 32 bits with the sign-following
    /// remainder by `Q` taken after each term.
    pub fn multiply(&self, other: &Matrix) -> (m: Matrix)
        requires
            self.wf(),
            other.wf(),
            self.ncols() == other.nrows(),
            self.nrows() * other.ncols() <= usize::MAX,
        ensures
            m.has_shape(self.nrows(), other.ncols()),
            forall|i: int, j: int|
                0 <= i < self.nrows() && 0 <= j < other.ncols() ==> #[trigger] m.entry(i, j) as int
                    == dot_acc(self.entries(), self.ncols(), other.entries(), other.ncols(), i, j, self.ncols()),
    {
        let mut result = Matrix::new(self.rows, other.cols);
        let mut i: usize = 0;
        while i < self.rows
            invariant
                i <= self.nrows(),
                result.has_shape(self.nrows(), other.ncols()),
                self.wf(),
                other.wf(),
                self.ncols() == other.nrows(),
                forall|a: int, b: int|
                    0 <= a < i && 0 <= b < other.ncols() ==> #[trigger] result.entry(a, b) as int
                        == dot_acc(self.entries(), self.ncols(), other.entries(), other.ncols(), a, b, self.ncols()),
            decreases self.rows - i,
        {
            let mut j: usize = 0;
            while j < other.cols
                invariant
                    i < self.nrows(),
                    j <= other.ncols(),
                    result.has_shape(self.nrows(), other.ncols()),
                    self.wf(),
                    other.wf(),
                    self.ncols() == other.nrows(),
                    forall|a: int, b: int|
                        0 <= a < i && 0 <= b < other.ncols() ==> #[trigger] result.entry(a, b) as int
                            == dot_acc(self.entries(), self.ncols(), other.entries(), other.ncols(), a, b, self.ncols()),
                    forall|b: int|
                        0 <= b < j ==> #[trigger] result.entry(i as int, b) as int == dot_acc(
                            self.entries(),
                            self.ncols(),
                            other.entries(),
                            other.ncols(),
                            i as int,
                            b,
                            self.ncols(),
                        ),
                decreases other.cols - j,
            {
                let mut sum: i32 = 0;
                let mut k: usize = 0;
                while k < self.cols
                    invariant
                        i < self.nrows(),
                        j < other.ncols(),
                        k <= self.ncols(),
                        self.wf(),
                        other.wf(),
                        self.ncols() == other.nrows(),
                        sum as int == dot_acc(self.entries(), self.ncols(), other.entries(), other.ncols(), i as int, j as int, k as nat),
                    decreases self.cols - k,
                {
                    proof {
                        lemma_dot_acc_bounds(self.entries(), self.ncols(), other.entries(), other.ncols(), i as int, j as int, k as nat);
                    }
                    let x = self.get(i, k) as i32;
                    let y = other.get(k, j) as i32;
                    assert(-32768 * 32768 <= x * y <= 32768 * 32768) by (nonlinear_arith)
                        requires
                            -32768 <= x <= 32767,
                            -32768 <= y <= 32767,
                    ;
                    let t: i32 = sum + x * y;
                    sum = if t >= 0 {
                        t % Q
                    } else {
                        -((-t) % Q)
                    };
                    k = k + 1;
                }
                proof {
                    lemma_dot_acc_bounds(self.entries(), self.ncols(), other.entries(), other.ncols(), i as int, j as int, self.ncols());
                }
                result.set(i, j, sum as i16);
                j = j + 1;
            }
            i = i + 1;
        }
        result
    }

    /// The transpose: entry (j, i) of the result is entry (i, j) of `self`.
    pub fn transpose(&self) -> (m: Matrix)
        requires
            self.wf(),
        ensures
            m.has_shape(self.ncols(), self.nrows()),
            forall|i: int, j: int|
                0 <= i < self.nrows() && 0 <= j < self.ncols() ==> #[trigger] m.entry(j, i)
                    == self.entry(i, j),
            m.entries() == transposed(self.entries(), self.nrows(), self.ncols()),
    {
        proof {
            vstd::arithmetic::mul::lemma_mul_is_commutative(self.rows as int, self.cols as int);
        }
        let mut result = Matrix::new(self.cols, self.rows);
        let mut i: usize = 0;
        while i < self.rows
            invariant
                i <= self.nrows(),
                self.wf(),
                result.has_shape(self.ncols(), self.nrows()),
                forall|a: int, b: int|
                    0 <= a < i && 0 <= b < self.ncols() ==> #[trigger] result.entry(b, a)
                        == self.entry(a, b),
            decreases self.rows - i,
        {
            let mut j: usize = 0;
            while j < self.cols
                invariant
                    i < self.nrows(),
                    j <= self.ncols(),
                    self.wf(),
                    result.has_shape(self.ncols(), self.nrows()),
                    forall|a: int, b: int|
                        0 <= a < i && 0 <= b < self.ncols() ==> #[trigger] result.entry(b, a)
                            == self.entry(a, b),
                    forall|b: int| 0 <= b < j ==> #[trigger] result.entry(b, i as int) == self.entry(i as int, b),
                decreases self.cols - j,
            {
                let v = self.get(i, j);
                result.set(j, i, v);
                j = j + 1;
            }
            i = i + 1;
        }
        proof {
            let rows = self.rows as int;
            let cols = self.cols as int;
            let t = transposed(self.entries(), self.nrows(), self.ncols());
            assert forall|k: int| 0 <= k < cols * rows implies #[trigger] result.entries()[k] == t[k] by {
                assert(rows > 0) by (nonlinear_arith)
                    requires
                        0 <= k < cols * rows,
                        rows >= 0,
                ;
                let q = k / rows;
                let r = k % rows;
                vstd::arithmetic::div_mod::lemma_fundamental_div_mod(k, rows);
                assert(q < cols) by (nonlinear_arith)
                    requires
                        k == rows * q + r,
                        0 <= r < rows,
                        k < cols * rows,
                ;
                assert(0 <= q) by (nonlinear_arith)
                    requires
                        k == rows * q + r,
                        r < rows,
                        0 <= k,
                        0 < rows,
                ;
                assert(q * rows + r == k) by (nonlinear_arith)
                    requires
                        k == rows * q + r,
                ;
                assert(result.entry(q, r) == self.entry(r, q));
            }
            assert(result.entries() =~= t);
        }
        result
    }
}

impl Matrix {
    /// The entries in row-major order, each as two little-endian bytes; no
    /// header, no padding.
    pub fn serialize(&self) -> (r: Vec<u8>)
        requires
            self.wf(),
        ensures
            r@ == i16s_to_le(self.entries()),
    {
        let n = self.data.len();
        let mut out: Vec<u8> = Vec::new();
        let mut k: usize = 0;
        while k < n
            invariant
                n == self.entries().len(),
                k <= n,
                out@.len() == 2 * k,
                forall|t: int| 0 <= t < 2 * k ==> #[trigger] out@[t] == i16s_to_le(self.entries())[t],
            decreases n - k,
        {
            let v = self.data[k];
            out.push(low_byte(v));
            out.push(high_byte(v));
            proof {
                let t0 = 2 * k as int;
                assert(t0 % 2 == 0 && t0 / 2 == k);
                assert((t0 + 1) % 2 == 1 && (t0 + 1) / 2 == k);
            }
            k = k + 1;
        }
        assert(out@ =~= i16s_to_le(self.entries()));
        out
    }

    /// Reads a `rows` x `cols` matrix from the `2 * rows * cols` bytes of
    /// `data` that start at `offset`.
    pub(crate) fn read_at(data: &[u8], offset: usize, rows: usize, cols: usize) -> (m: Matrix)
        requires
            rows * cols * 2 <= usize::MAX,
            offset + rows * cols * 2 <= data@.len(),
        ensures
            m.has_shape(rows as nat, cols as nat),
            m.entries() == le_to_i16s(data@.skip(offset as int), (rows * cols) as nat),
    {
        let n: usize = rows * cols;
        let dlen = data.len();
        let mut vals: Vec<i16> = Vec::new();
        let mut k: usize = 0;
        while k < n
            invariant
                n == rows * cols,
                n * 2 <= usize::MAX,
                offset + n * 2 <= data@.len(),
                dlen == data@.len(),
                k <= n,
                vals@.len() == k,
                forall|t: int| 0 <= t < k ==> #[trigger] vals@[t] == le_to_i16s(data@.skip(offset as int), n as nat)[t],
            decreases n - k,
        {
            let v = read_i16_le(data[offset + 2 * k], data[offset + 2 * k + 1]);
            vals.push(v);
            k = k + 1;
        }
        assert(vals@ =~= le_to_i16s(data@.skip(offset as int), n as nat));
        Matrix { rows, cols, data: vals }
    }

    /// Reads a `rows` x `cols` matrix from the first `2 * rows * cols` bytes
    /// of `data`; bytes after those are ignored.
    pub fn deserialize(data: &[u8], rows: usize, cols: usize) -> (r: Result<Matrix, FrodoError>)
        requires
            rows * cols * 2 <= usize::MAX,
        ensures
            match r {
                Ok(m) => {
                    &&& data@.len() >= rows * cols * 2
                    &&& m.has_shape(rows as nat, cols as nat)
                    &&& m.entries() == le_to_i16s(data@, (rows * cols) as nat)
                },
                Err(e) => data@.len() < rows * cols * 2,
            },
    {
        if data.len() < rows * cols * 2 {
            return Err(FrodoError::DeserializationError("Not enough data".to_string()));
        }
        let m = Matrix::read_at(data, 0, rows, cols);
        assert(data@.skip(0) =~= data@);
        Ok(m)
    }
}

/// Serializing a well-formed matrix and reading it back with the same shape
/// succeeds and gives the same entries.
pub proof fn lemma_matrix_round_trip(m: Matrix)
    requires
        m.wf(),
    ensures
        i16s_to_le(m.entries()).len() == m.nrows() * m.ncols() * 2,
        le_to_i16s(i16s_to_le(m.entries()), m.nrows() * m.ncols()) == m.entries(),
{
    lemma_i16s_le_round_trip(m.entries());
}

} // verus!
