//! Where the numbers of an attention head stand.
//!
//! Queries, keys and values are laid out position by position, within a
//! position head by head, and within a head number by number.

use vstd::prelude::*;

verus! {

/// Where head `head` of position `position` begins, among `heads` heads of
/// `dim` numbers each.
pub open spec fn head_start(position: int, head: int, heads: int, dim: int) -> int {
    (position * heads + head) * dim
}

/// Where head `head` of position `position` begins.
pub fn head_offset(position: usize, head: usize, heads: usize, dim: usize) -> (at: usize)
    requires
        head < heads,
        (position + 1) * heads * dim <= usize::MAX,
    ensures
        at == head_start(position as int, head as int, heads as int, dim as int),
        position * heads * dim <= at,
        at + dim <= (position + 1) * heads * dim,
{
    proof {
        let p = position as int;
        let h = head as int;
        let n = heads as int;
        let d = dim as int;
        assert((p * n + h) * d + d <= (p + 1) * n * d) by (nonlinear_arith)
            requires
                h + 1 <= n,
                d >= 0,
        ;
        assert(p * n * d <= (p * n + h) * d) by (nonlinear_arith)
            requires
                h >= 0,
                d >= 0,
        ;
        assert(p * n >= 0) by (nonlinear_arith)
            requires
                p >= 0,
                n >= 0,
        ;
        if d > 0 {
            assert(p * n + h <= (p * n + h) * d) by (nonlinear_arith)
                requires
                    d >= 1,
                    p * n + h >= 0,
            ;
        }
    }
    if dim == 0 {
        assert(head_start(position as int, head as int, heads as int, 0) == 0);
        assert(position * heads * dim == 0) by (nonlinear_arith)
            requires
                dim == 0,
        ;
        return 0;
    }
    (position * heads + head) * dim
}

/// Every number stands in one head of one position: number `i` in head
/// `i / dim % heads` of position `i / dim / heads`.
pub proof fn heads_fill_rows(i: int, heads: int, dim: int)
    requires
        0 <= i,
        0 < heads,
        0 < dim,
    ensures
        ({
            let at = head_start(i / dim / heads, i / dim % heads, heads, dim);
            at <= i < at + dim
        }),
{
    vstd::arithmetic::div_mod::lemma_fundamental_div_mod(i, dim);
    vstd::arithmetic::div_mod::lemma_fundamental_div_mod(i / dim, heads);
    let j = i / dim;
    assert((j / heads) * heads + j % heads == j) by (nonlinear_arith)
        requires
            j == heads * (j / heads) + j % heads,
    ;
    assert(j * dim <= i < j * dim + dim) by (nonlinear_arith)
        requires
            i == dim * j + i % dim,
            0 <= i % dim < dim,
    ;
}

/// Two heads share no number, whether they are of one position or of two.
pub proof fn heads_are_apart(p: int, h: int, q: int, g: int, heads: int, dim: int)
    requires
        0 <= h < heads,
        0 <= g < heads,
        0 <= dim,
        p != q || h != g,
    ensures
        head_start(p, h, heads, dim) + dim <= head_start(q, g, heads, dim) || head_start(
            q,
            g,
            heads,
            dim,
        ) + dim <= head_start(p, h, heads, dim),
{
    let a = p * heads + h;
    let b = q * heads + g;
    if p < q {
        assert(a < b) by (nonlinear_arith)
            requires
                a == p * heads + h,
                b == q * heads + g,
                p + 1 <= q,
                0 <= h < heads,
                0 <= g,
        ;
    } else if q < p {
        assert(b < a) by (nonlinear_arith)
            requires
                a == p * heads + h,
                b == q * heads + g,
                q + 1 <= p,
                0 <= g < heads,
                0 <= h,
        ;
    }
    if a < b {
        assert(a * dim + dim <= b * dim) by (nonlinear_arith)
            requires
                a + 1 <= b,
                0 <= dim,
        ;
    } else {
        assert(b * dim + dim <= a * dim) by (nonlinear_arith)
            requires
                b + 1 <= a,
                0 <= dim,
        ;
    }
}

/// The number of query heads that read one key/value head; at least 1.
pub open spec fn group_size(n_q: nat, n_kv: nat) -> nat {
    if n_q == 0 || n_q < n_kv {
        1
    } else if n_kv == 0 {
        n_q
    } else {
        n_q / n_kv
    }
}

/// The key/value head that query head `q` reads. Where the query heads can be
/// shared out evenly it is one of the `n_kv`.
pub fn kv_head_of(q: usize, n_q: usize, n_kv: usize) -> (h: usize)
    ensures
        h == q as nat / group_size(n_q as nat, n_kv as nat),
        q < n_q && 0 < n_kv && n_q % n_kv == 0 ==> h < n_kv,
{
    let group: usize = if n_q == 0 || n_q < n_kv {
        1
    } else if n_kv == 0 {
        n_q
    } else {
        n_q / n_kv
    };
    proof {
        if 0 < n_kv <= n_q {
            assert(group >= 1) by (nonlinear_arith)
                requires
                    group == n_q / n_kv,
                    0 < n_kv <= n_q,
            ;
        }
        if q < n_q && 0 < n_kv && n_q % n_kv == 0 {
            assert(n_kv <= n_q) by (nonlinear_arith)
                requires
                    n_q % n_kv == 0,
                    n_q > 0,
                    n_kv > 0,
            ;
            vstd::arithmetic::div_mod::lemma_fundamental_div_mod(n_q as int, n_kv as int);
            assert(q / group < n_kv) by (nonlinear_arith)
                requires
                    q < n_q,
                    n_q == n_kv * group,
                    group >= 1,
            ;
        }
    }
    q / group
}

/// Query heads are shared out evenly: each key/value head is read by as many
/// consecutive query heads as any other.
pub proof fn groups_are_even(q: int, n_q: int, n_kv: int)
    requires
        0 <= q < n_q,
        0 < n_kv,
        n_q % n_kv == 0,
    ensures
        ({
            let g = group_size(n_q as nat, n_kv as nat) as int;
            let h = q / g;
            &&& n_q == n_kv * g
            &&& 0 <= h < n_kv
            &&& h * g <= q < h * g + g
        }),
{
    vstd::arithmetic::div_mod::lemma_fundamental_div_mod(n_q, n_kv);
    let g = n_q / n_kv;
    assert(g >= 1) by (nonlinear_arith)
        requires
            n_q == n_kv * g,
            n_q > 0,
            n_kv > 0,
    ;
    assert(n_kv <= n_q) by (nonlinear_arith)
        requires
            n_q == n_kv * g,
            g >= 1,
            n_kv > 0,
    ;
    assert(group_size(n_q as nat, n_kv as nat) == g);
    vstd::arithmetic::div_mod::lemma_fundamental_div_mod(q, g);
    let h = q / g;
    assert(0 <= h < n_kv) by (nonlinear_arith)
        requires
            h == q / g,
            0 <= q < n_q,
            n_q == n_kv * g,
            g >= 1,
    ;
    assert(h * g <= q < h * g + g) by (nonlinear_arith)
        requires
            q == g * h + q % g,
            0 <= q % g < g,
    ;
}

/// How many pairs of a head are rotated.
pub open spec fn pairs_of(rotary_dim: usize, head_dim: usize) -> usize {
    if rotary_dim == 0 {
        head_dim / 2
    } else {
        rotary_dim / 2
    }
}

/// How many pairs of a head are rotated: half of `rotary_dim` numbers, or of
/// the whole head where that is 0.
pub fn rotary_pairs(rotary_dim: usize, head_dim: usize) -> (n: usize)
    ensures
        n == (if rotary_dim == 0 {
            head_dim
        } else {
            rotary_dim
        }) / 2,
        n == pairs_of(rotary_dim, head_dim),
{
    if rotary_dim == 0 {
        head_dim / 2
    } else {
        rotary_dim / 2
    }
}

/// As many query heads as possible read one key/value head: with one more to
/// each there would not be enough. Where there are fewer query heads than
/// key/value heads, each reads its own.
pub proof fn groups_are_as_large_as_can_be(n_q: nat, n_kv: nat)
    ensures
        0 < n_kv <= n_q ==> group_size(n_q, n_kv) * n_kv <= n_q < (group_size(n_q, n_kv) + 1) * n_kv,
        n_q < n_kv ==> group_size(n_q, n_kv) == 1,
        group_size(n_q, n_kv) >= 1,
{
    if 0 < n_kv <= n_q {
        vstd::arithmetic::div_mod::lemma_fundamental_div_mod(n_q as int, n_kv as int);
        let g = n_q / n_kv;
        assert(g * n_kv <= n_q < (g + 1) * n_kv) by (nonlinear_arith)
            requires
                n_q == n_kv * g + n_q % n_kv,
                0 <= n_q % n_kv < n_kv,
        ;
        assert(g >= 1) by (nonlinear_arith)
            requires
                n_kv <= n_q < (g + 1) * n_kv,
        ;
    }
}

/// All numbers that are to be rotated are rotated in pairs, but for an odd one:
/// those that the model says, or the whole head where it says nothing.
pub proof fn pairs_cover_what_is_rotated(rotary_dim: usize, head_dim: usize)
    ensures
        rotary_dim == 0 ==> head_dim - 1 <= 2 * pairs_of(rotary_dim, head_dim) <= head_dim,
        rotary_dim > 0 ==> rotary_dim - 1 <= 2 * pairs_of(rotary_dim, head_dim) <= rotary_dim,
{
}

} // verus!
