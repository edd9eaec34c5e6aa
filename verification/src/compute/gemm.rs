//! Geometry of matrix products and kernel launches on the device.
//!
//! Matrices are stored row after row; the device library takes them column
//! after column. What is stored as an `m x n` matrix by rows is, read by
//! columns, its transpose, so that the product is asked for with the operands
//! swapped.

use vstd::prelude::*;

verus! {

/// The arguments of a device product `C = A * B` or `C = A * B^T`, with `B`
/// as the first operand and `A` as the second.
#[derive(Debug, Clone, Copy)]
pub struct GemmPlan {
    pub transpose_first: bool,
    pub m: i32,
    pub n: i32,
    pub k: i32,
    pub lda: i32,
    pub ldb: i32,
    pub ldc: i32,
}

/// Rows of the product's second dimension.
pub open spec fn product_cols(b_rows: usize, b_cols: usize, transpose_b: bool) -> usize {
    if transpose_b {
        b_rows
    } else {
        b_cols
    }
}

/// The inner dimension on the side of `B`.
pub open spec fn inner_dim(b_rows: usize, b_cols: usize, transpose_b: bool) -> usize {
    if transpose_b {
        b_cols
    } else {
        b_rows
    }
}

/// Whether a plan, on sizes that the device can hold, reads element `(i, q)` of
/// `A` and element `(q, j)` of `B` (or `(j, q)`, where the product is with the
/// transpose), and writes element `(i, j)` of `C`, each at its place in
/// matrices stored by rows.
pub open spec fn reads_right(p: GemmPlan, m: int, k: int, n: int, transpose_b: bool) -> bool {
    m <= i32::MAX && k <= i32::MAX && n <= i32::MAX ==> {
        &&& p.m == n && p.n == m && p.k == k
        &&& forall|i: int, q: int|
            0 <= i < m && 0 <= q < k ==> #[trigger] by_columns(q, i, p.ldb as int) == by_rows(
                i,
                q,
                k,
            )
        &&& forall|i: int, j: int|
            0 <= i < m && 0 <= j < n ==> #[trigger] by_columns(j, i, p.ldc as int) == by_rows(
                i,
                j,
                n,
            )
        &&& forall|q: int, j: int|
            0 <= q < k && 0 <= j < n ==> #[trigger] first_operand(p, j, q) == (if transpose_b {
                by_rows(j, q, k)
            } else {
                by_rows(q, j, n)
            })
    }
}

/// Where the device reads element `(j, q)` of its first operand, which it
/// turns round where the plan says so.
pub open spec fn first_operand(p: GemmPlan, j: int, q: int) -> int {
    if p.transpose_first {
        by_columns(q, j, p.lda as int)
    } else {
        by_columns(j, q, p.lda as int)
    }
}

/// Plans the product of an `m x k` matrix with one of `b_rows x b_cols`.
pub fn plan_gemm(m: usize, k: usize, b_rows: usize, b_cols: usize, transpose_b: bool) -> (p:
    GemmPlan)
    requires
        k == inner_dim(b_rows, b_cols, transpose_b),
    ensures
        ({
            let n = product_cols(b_rows, b_cols, transpose_b);
            p == GemmPlan {
                transpose_first: transpose_b,
                m: n as i32,
                n: m as i32,
                k: k as i32,
                lda: if transpose_b {
                    k as i32
                } else {
                    n as i32
                },
                ldb: k as i32,
                ldc: n as i32,
            }
        }),
        reads_right(
            p,
            m as int,
            k as int,
            product_cols(b_rows, b_cols, transpose_b) as int,
            transpose_b,
        ),
{
    let n: usize = if transpose_b {
        b_rows
    } else {
        b_cols
    };
    GemmPlan {
        transpose_first: transpose_b,
        m: n as i32,
        n: m as i32,
        k: k as i32,
        lda: if transpose_b {
            k as i32
        } else {
            n as i32
        },
        ldb: k as i32,
        ldc: n as i32,
    }
}

/// Place of element `(i, j)` of a matrix with `cols` columns stored by rows.
pub open spec fn by_rows(i: int, j: int, cols: int) -> int {
    i * cols + j
}

/// Place of element `(i, j)` of a matrix stored by columns that are `ld`
/// apart.
pub open spec fn by_columns(i: int, j: int, ld: int) -> int {
    i + j * ld
}

/// The device reads and writes the right elements: its first operand is `B`
/// transposed (`op(first)[j, p]` is `B[p, j]`, or `B[j, p]` where the product
/// is with `B^T`), its second is `A` transposed, and its result is `C`
/// transposed.
pub proof fn gemm_reads_by_rows(
    m: int,
    k: int,
    n: int,
    transpose_b: bool,
    i: int,
    j: int,
    p: int,
)
    requires
        0 <= i < m,
        0 <= j < n,
        0 <= p < k,
    ensures
        by_columns(p, i, k) == by_rows(i, p, k),
        by_columns(j, i, n) == by_rows(i, j, n),
        !transpose_b ==> by_columns(j, p, n) == by_rows(p, j, n),
        transpose_b ==> by_columns(p, j, k) == by_rows(j, p, k),
{
}

/// Threads of a block of the quantized kernels.
pub const THREADS_PER_BLOCK: u32 = 256;

/// Bytes of a Q4_K super-block.
pub const Q4K_BLOCK_SIZE: usize = 144;

/// Bytes of a Q6_K super-block.
pub const Q6K_BLOCK_SIZE: usize = 210;

/// How a quantized kernel is launched: one block per output row.
#[derive(Debug, Clone, Copy)]
pub struct LaunchPlan {
    pub grid_x: u32,
    pub block_x: u32,
    pub shared_bytes: u32,
    pub num_rows: i32,
    pub hidden: i32,
    pub superblocks: i32,
    pub bytes_per_row: i32,
}

/// Whether a launch, on sizes that the device can hold, has a block for each
/// row and takes each row for as many bytes as its super-blocks have.
pub open spec fn covers_rows(p: LaunchPlan, num_rows: int, hidden: int, block_size: int) -> bool {
    num_rows <= i32::MAX && hidden <= i32::MAX ==> {
        &&& p.grid_x == num_rows && p.num_rows == num_rows
        &&& p.block_x == 256 && p.hidden == hidden
        &&& p.superblocks * 256 <= hidden < (p.superblocks + 1) * 256
        &&& p.superblocks * block_size <= i32::MAX ==> p.bytes_per_row == p.superblocks
            * block_size
    }
}

/// Plans a launch for rows made of super-blocks of `block_size` bytes, 256
/// values each.
pub fn plan_launch(num_rows: usize, hidden: usize, block_size: usize) -> (p: LaunchPlan)
    requires
        block_size <= 256,
    ensures
        p == (LaunchPlan {
            grid_x: num_rows as u32,
            block_x: THREADS_PER_BLOCK,
            shared_bytes: 128,
            num_rows: num_rows as i32,
            hidden: hidden as i32,
            superblocks: (hidden / 256) as i32,
            bytes_per_row: (hidden / 256 * block_size) as i32,
        }),
        covers_rows(p, num_rows as int, hidden as int, block_size as int),
{
    let superblocks: usize = hidden / 256;
    assert(superblocks * block_size <= superblocks * 256) by (nonlinear_arith)
        requires
            block_size <= 256,
    ;
    let bytes_per_row: usize = superblocks * block_size;
    LaunchPlan {
        grid_x: num_rows as u32,
        block_x: THREADS_PER_BLOCK,
        shared_bytes: 128,
        num_rows: num_rows as i32,
        hidden: hidden as i32,
        superblocks: superblocks as i32,
        bytes_per_row: bytes_per_row as i32,
    }
}

} // verus!
