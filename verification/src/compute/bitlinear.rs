//! Ternary weight matrices with one scale per row.

use vstd::prelude::*;
use vstd::string::*;

use crate::ternary::{clamped, packed, slot_code, slot_ternary, trit_value, unpack_of_pack, unpacked};
use crate::text::{append_decimal, append_size, decimal};

verus! {

/// What can be wrong with the operands of a kernel.
#[derive(Debug, Clone, PartialEq, Eq)]
pub enum ComputeError {
    ShapeMismatch(String),
}

impl ComputeError {
    /// The text of the error.
    pub open spec fn text(self) -> Seq<char> {
        match self {
            ComputeError::ShapeMismatch(msg) => "shape mismatch: "@ + msg@,
        }
    }

    /// The error as text.
    pub fn message(&self) -> (s: String)
        ensures
            s@ == self.text(),
    {
        match self {
            ComputeError::ShapeMismatch(msg) => {
                let mut s: String = String::from_str("shape mismatch: ");
                s.append(msg.as_str());
                s
            },
        }
    }
}

/// One layer's ternary weights.
///
/// `i2s_bytes` holds `rows * cols / 4` bytes, row after row; `channel_scales`
/// holds the binary32 pattern of one scale per row.
#[derive(Clone, Debug)]
pub struct BitLinearWeight {
    pub rows: usize,
    pub cols: usize,
    pub i2s_bytes: Vec<u8>,
    pub channel_scales: Vec<u32>,
}

/// `rows * cols`, or the largest size where that does not fit.
pub open spec fn saturated_product(rows: usize, cols: usize) -> nat {
    if rows * cols > usize::MAX {
        usize::MAX as nat
    } else {
        (rows * cols) as nat
    }
}

/// Why a matrix of this shape cannot be made of `n_bytes` packed bytes and
/// `n_scales` scales; `None` where it can.
pub open spec fn weight_fault(rows: usize, cols: usize, n_bytes: nat, n_scales: nat) -> Option<
    Seq<char>,
> {
    if cols % 4 != 0 {
        Some(
            "BitLinearWeight: cols ("@ + decimal(cols as nat)
                + ") must be a multiple of 4 for I2_S packing"@,
        )
    } else if 4 * n_bytes != rows * cols {
        Some(
            "BitLinearWeight: expected "@ + decimal(saturated_product(rows, cols) / 4)
                + " I2_S bytes ("@ + decimal(rows as nat) + "x"@ + decimal(cols as nat)
                + "/4), got "@ + decimal(n_bytes) + " bytes"@,
        )
    } else if n_scales != rows {
        Some(
            "BitLinearWeight: expected "@ + decimal(rows as nat) + " channel scales, got "@
                + decimal(n_scales),
        )
    } else {
        None
    }
}

/// Why the matrix cannot be multiplied by a vector of `x_len` elements into
/// one of `y_len`; `None` where it can.
pub open spec fn matvec_fault(rows: usize, cols: usize, x_len: usize, y_len: usize) -> Option<
    Seq<char>,
> {
    if x_len != cols {
        Some(
            "matvec_i2s_f32: x.len() = "@ + decimal(x_len as nat) + ", expected w.cols = "@
                + decimal(cols as nat),
        )
    } else if y_len < rows {
        Some(
            "matvec_i2s_f32: y.len() = "@ + decimal(y_len as nat) + " < w.rows = "@ + decimal(
                rows as nat,
            ),
        )
    } else {
        None
    }
}

/// The packed byte that holds column `c` of row `r` is one of the matrix.
proof fn byte_in_range(rows: int, cols: int, r: int, c: int)
    requires
        cols % 4 == 0,
        0 <= r < rows,
        0 <= c < cols,
    ensures
        0 <= r * (cols / 4) + c / 4 < rows * cols / 4,
        rows * cols / 4 == rows * (cols / 4),
        r * (cols / 4) <= rows * cols / 4,
{
    let q = cols / 4;
    assert(cols == 4 * q);
    assert(rows * (4 * q) == 4 * (rows * q)) by (nonlinear_arith);
    assert(r * q + q <= rows * q) by (nonlinear_arith)
        requires
            r + 1 <= rows,
            q >= 0,
    ;
    assert(0 <= r * q) by (nonlinear_arith)
        requires
            0 <= r,
            0 <= q,
    ;
}

impl BitLinearWeight {
    /// The packed bytes and the scales fit the shape.
    pub open spec fn well_formed(self) -> bool {
        &&& self.cols % 4 == 0
        &&& 4 * self.i2s_bytes@.len() == self.rows * self.cols
        &&& self.channel_scales@.len() == self.rows
    }

    /// The weight at row `r`, column `c`.
    pub open spec fn weight_at(self, r: int, c: int) -> i8 {
        trit_value(slot_code(self.i2s_bytes@[r * (self.cols as int / 4) + c / 4], c % 4))
    }

    /// Makes a matrix, or says what does not fit.
    pub fn new(rows: usize, cols: usize, i2s_bytes: Vec<u8>, channel_scales: Vec<u32>) -> (r:
        Result<Self, ComputeError>)
        ensures
            match r {
                Ok(w) => weight_fault(
                    rows,
                    cols,
                    i2s_bytes@.len(),
                    channel_scales@.len(),
                ) is None && w == (BitLinearWeight { rows, cols, i2s_bytes, channel_scales })
                    && w.well_formed(),
                Err(ComputeError::ShapeMismatch(m)) => weight_fault(
                    rows,
                    cols,
                    i2s_bytes@.len(),
                    channel_scales@.len(),
                ) == Some(m@),
            },
    {
        if cols % 4 != 0 {
            let mut m: String = String::from_str("BitLinearWeight: cols (");
            append_size(&mut m, cols);
            m.append(") must be a multiple of 4 for I2_S packing");
            return Err(ComputeError::ShapeMismatch(m));
        }
        proof {
            product_of_fours(rows as int, cols as int);
            size_product_fits(rows, cols);
        }
        let product: u128 = (rows as u128) * (cols as u128);
        if 4 * (i2s_bytes.len() as u128) != product {
            let whole: u128 = if product > usize::MAX as u128 {
                usize::MAX as u128
            } else {
                product
            };
            let mut m: String = String::from_str("BitLinearWeight: expected ");
            append_decimal(&mut m, whole / 4);
            m.append(" I2_S bytes (");
            append_size(&mut m, rows);
            m.append("x");
            append_size(&mut m, cols);
            m.append("/4), got ");
            append_size(&mut m, i2s_bytes.len());
            m.append(" bytes");
            return Err(ComputeError::ShapeMismatch(m));
        }
        if channel_scales.len() != rows {
            let mut m: String = String::from_str("BitLinearWeight: expected ");
            append_size(&mut m, rows);
            m.append(" channel scales, got ");
            append_size(&mut m, channel_scales.len());
            return Err(ComputeError::ShapeMismatch(m));
        }
        Ok(BitLinearWeight { rows, cols, i2s_bytes, channel_scales })
    }

    /// Packed bytes per row.
    pub fn row_bytes(&self) -> (n: usize)
        ensures
            n == self.cols / 4,
    {
        self.cols / 4
    }

    /// The weights of row `r`.
    pub fn row_trits(&self, r: usize) -> (row: Vec<i8>)
        requires
            self.well_formed(),
            r < self.rows,
        ensures
            row@ == Seq::new(self.cols as nat, |c: int| self.weight_at(r as int, c)),
    {
        let mut row: Vec<i8> = Vec::new();
        let ghost want = Seq::new(self.cols as nat, |c: int| self.weight_at(r as int, c));
        let mut c: usize = 0;
        while c < self.cols
            invariant
                self.well_formed(),
                r < self.rows,
                c <= self.cols,
                want == Seq::new(self.cols as nat, |c: int| self.weight_at(r as int, c)),
                row@ == want.take(c as int),
            decreases self.cols - c,
        {
            proof {
                byte_in_range(self.rows as int, self.cols as int, r as int, c as int);
                assert(self.i2s_bytes.len() <= usize::MAX);
            }
            let at: usize = r * (self.cols / 4) + c / 4;
            row.push(slot_ternary(self.i2s_bytes[at], c % 4));
            c = c + 1;
            assert(row@ =~= want.take(c as int));
        }
        assert(row@ =~= want);
        row
    }

    /// Whether a product of the matrix with a vector of `x_len` elements fits
    /// an output of `y_len`.
    pub fn check_matvec(&self, x_len: usize, y_len: usize) -> (r: Result<(), ComputeError>)
        ensures
            match r {
                Ok(_) => matvec_fault(self.rows, self.cols, x_len, y_len) is None,
                Err(ComputeError::ShapeMismatch(m)) => matvec_fault(
                    self.rows,
                    self.cols,
                    x_len,
                    y_len,
                ) == Some(m@),
            },
    {
        if x_len != self.cols {
            let mut m: String = String::from_str("matvec_i2s_f32: x.len() = ");
            append_size(&mut m, x_len);
            m.append(", expected w.cols = ");
            append_size(&mut m, self.cols);
            return Err(ComputeError::ShapeMismatch(m));
        }
        if y_len < self.rows {
            let mut m: String = String::from_str("matvec_i2s_f32: y.len() = ");
            append_size(&mut m, y_len);
            m.append(" < w.rows = ");
            append_size(&mut m, self.rows);
            return Err(ComputeError::ShapeMismatch(m));
        }
        Ok(())
    }
}

/// The product of two sizes fits in 128 bits.
pub proof fn size_product_fits(a: usize, b: usize)
    ensures
        0 <= a * b <= u128::MAX,
{
    assert(0 <= a * b <= 0xFFFF_FFFF_FFFF_FFFF * 0xFFFF_FFFF_FFFF_FFFF) by (nonlinear_arith)
        requires
            0 <= a <= 0xFFFF_FFFF_FFFF_FFFF,
            0 <= b <= 0xFFFF_FFFF_FFFF_FFFF,
    ;
}

/// A multiple of four times a number is a multiple of four.
pub proof fn product_of_fours(rows: int, cols: int)
    requires
        cols % 4 == 0,
    ensures
        (rows * cols) % 4 == 0,
{
    let q = cols / 4;
    assert(cols == 4 * q);
    assert(rows * (4 * q) == 4 * (rows * q)) by (nonlinear_arith);
}

/// A matrix is refused exactly where its shape does not fit: rows of a number
/// of weights that four does not divide, too few or too many packed bytes, or
/// not one scale per row.
pub proof fn weights_have_to_fit(rows: usize, cols: usize, n_bytes: nat, n_scales: nat)
    ensures
        weight_fault(rows, cols, n_bytes, n_scales) is None <==> cols % 4 == 0 && 4 * n_bytes
            == rows * cols && rows == n_scales,
{
}

/// A product is refused exactly where the vector has not one element per
/// column, or the output has no place for every row; a longer output is taken.
pub proof fn vectors_have_to_fit(rows: usize, cols: usize, x_len: usize, y_len: usize)
    ensures
        matvec_fault(rows, cols, x_len, y_len) is None <==> x_len == cols && rows <= y_len,
{
}

/// The rows of a matrix follow one another in the packed bytes: the weight at
/// row `r`, column `c` is weight `r * cols + c` of all.
pub proof fn rows_follow_one_another(w: BitLinearWeight, r: int, c: int)
    requires
        w.well_formed(),
        0 <= r < w.rows,
        0 <= c < w.cols,
    ensures
        0 <= r * w.cols + c < w.rows * w.cols,
        w.weight_at(r, c) == unpacked(w.i2s_bytes@, (w.rows * w.cols) as nat)[r * w.cols + c],
{
    let q = w.cols as int / 4;
    assert(w.cols == 4 * q);
    assert(r * (4 * q) == 4 * (r * q)) by (nonlinear_arith);
    assert(r * w.cols + w.cols <= w.rows * w.cols) by (nonlinear_arith)
        requires
            r + 1 <= w.rows,
    ;
    assert(0 <= r * q) by (nonlinear_arith)
        requires
            0 <= r,
            0 <= q,
    ;
    let i = r * w.cols + c;
    assert(i == 4 * (r * q) + c);
    assert(i / 4 == r * q + c / 4);
    assert(i % 4 == c % 4);
}

/// A matrix made of packed weights holds these weights, each at its row and
/// column.
pub proof fn packed_weights_are_found(w: BitLinearWeight, data: Seq<i8>, r: int, c: int)
    requires
        w.well_formed(),
        data.len() == w.rows * w.cols,
        w.i2s_bytes@ == packed(data),
        0 <= r < w.rows,
        0 <= c < w.cols,
    ensures
        0 <= r * w.cols + c < data.len(),
        w.weight_at(r, c) == clamped(data[r * w.cols + c]),
{
    rows_follow_one_another(w, r, c);
    product_of_fours(w.rows as int, w.cols as int);
    unpack_of_pack(data);
    assert(unpacked(packed(data), data.len())[r * w.cols + c] == data.map_values(
        |v: i8| clamped(v),
    )[r * w.cols + c]);
}

/// The number of weights that a message names is the product of rows and
/// columns, and the largest size where that is larger.
pub proof fn saturated_product_is_the_product(rows: usize, cols: usize)
    ensures
        saturated_product(rows, cols) <= rows * cols,
        saturated_product(rows, cols) <= usize::MAX,
        saturated_product(rows, cols) == rows * cols || saturated_product(rows, cols) == usize::MAX,
{
    assert(rows * cols >= 0) by (nonlinear_arith);
}

} // verus!
