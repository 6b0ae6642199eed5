use vstd::prelude::*;

verus! {

/// A byte of a row-major, channel-interleaved buffer lies inside the buffer.
pub proof fn lemma_byte_index_bound(w: int, h: int, c: int, x: int, y: int, k: int)
    requires
        0 <= x < w,
        0 <= y < h,
        0 <= k < c,
    ensures
        0 <= y * w + x < w * h,
        0 <= (y * w + x) * c + k < w * h * c,
{
    assert(y * w + x <= (h - 1) * w + (w - 1)) by (nonlinear_arith)
        requires
            0 <= x < w,
            0 <= y < h,
    ;
    assert((h - 1) * w + (w - 1) == w * h - 1) by (nonlinear_arith);
    assert(0 <= y * w + x) by (nonlinear_arith)
        requires
            0 <= x < w,
            0 <= y < h,
    ;
    let p = y * w + x;
    let n = w * h;
    assert(0 <= p * c + k < n * c) by (nonlinear_arith)
        requires
            0 <= p < n,
            0 <= k < c,
    ;
}

/// Products of non-negative factors grow with each factor.
pub proof fn lemma_mul_le(a: int, b: int, c: int, d: int)
    by (nonlinear_arith)
    requires
        0 <= a <= c,
        0 <= b <= d,
    ensures
        0 <= a * b <= c * d,
{
}

/// The quotient and the remainder of `q * d + r` by `d`, for `0 <= r < d`.
pub proof fn lemma_div_mod_of_sum(q: int, d: int, r: int)
    requires
        0 <= r < d,
    ensures
        (q * d + r) / d == q,
        (q * d + r) % d == r,
{
    vstd::arithmetic::div_mod::lemma_fundamental_div_mod_converse(q * d + r, d, q, r);
}

/// The coordinates `(a, b, c)` of the entry `(a * nb + b) * nc + c` of a
/// three-dimensional buffer are found again by division and remainder.
pub proof fn lemma_entry_coordinates(a: int, b: int, c: int, nb: int, nc: int)
    requires
        0 <= a,
        0 <= b < nb,
        0 <= c < nc,
    ensures
        0 <= (a * nb + b) * nc + c,
        ((a * nb + b) * nc + c) % nc == c,
        ((a * nb + b) * nc + c) / nc == a * nb + b,
        (((a * nb + b) * nc + c) / nc) % nb == b,
        (((a * nb + b) * nc + c) / nc) / nb == a,
{
    lemma_div_mod_of_sum(a * nb + b, nc, c);
    lemma_div_mod_of_sum(a, nb, b);
    assert(0 <= (a * nb + b) * nc + c) by (nonlinear_arith)
        requires
            0 <= a,
            0 <= b < nb,
            0 <= c < nc,
    ;
}

/// Every index of a buffer of `na * nb * nc` entries is the entry of the
/// coordinates that division and remainder give for it.
pub proof fn lemma_index_coordinates(i: int, na: int, nb: int, nc: int)
    requires
        0 <= na,
        0 <= nb,
        0 <= nc,
        0 <= i < na * nb * nc,
    ensures
        nb > 0,
        nc > 0,
        0 <= i % nc < nc,
        0 <= (i / nc) % nb < nb,
        0 <= (i / nc) / nb < na,
        0 <= i / nc < na * nb,
        (((i / nc) / nb) * nb + (i / nc) % nb) * nc + i % nc == i,
{
    assert(nc > 0 && nb > 0 && na > 0) by (nonlinear_arith)
        requires
            0 <= na,
            0 <= nb,
            0 <= nc,
            0 < na * nb * nc,
    ;
    let p = i / nc;
    vstd::arithmetic::div_mod::lemma_fundamental_div_mod(i, nc);
    vstd::arithmetic::div_mod::lemma_mod_bound(i, nc);
    assert(nc * p == p * nc) by (nonlinear_arith);
    assert(0 <= p < na * nb) by (nonlinear_arith)
        requires
            i == p * nc + i % nc,
            0 <= i % nc < nc,
            0 <= i < (na * nb) * nc,
            nc > 0,
    ;
    let a = p / nb;
    vstd::arithmetic::div_mod::lemma_fundamental_div_mod(p, nb);
    vstd::arithmetic::div_mod::lemma_mod_bound(p, nb);
    assert(nb * a == a * nb) by (nonlinear_arith);
    assert(0 <= a < na) by (nonlinear_arith)
        requires
            p == a * nb + p % nb,
            0 <= p % nb < nb,
            0 <= p < na * nb,
            nb > 0,
    ;
}

/// A coordinate inside a tile is a coordinate inside the image.
pub proof fn lemma_tile_coordinate(tile: int, tiles: int, side: int, offset: int)
    requires
        0 <= tile < tiles,
        0 <= offset < side,
    ensures
        0 <= tile * side + offset < tiles * side,
        (tile * side + offset) / side == tile,
        (tile * side + offset) % side == offset,
{
    lemma_div_mod_of_sum(tile, side, offset);
    assert(0 <= tile * side + offset < tiles * side) by (nonlinear_arith)
        requires
            0 <= tile < tiles,
            0 <= offset < side,
    ;
}

/// Quotient and remainder of the successor of `i` by `d`.
pub proof fn lemma_div_mod_succ(i: int, d: int)
    requires
        0 <= i,
        0 < d,
    ensures
        i % d + 1 < d ==> (i + 1) / d == i / d && (i + 1) % d == i % d + 1,
        i % d + 1 == d ==> (i + 1) / d == i / d + 1 && (i + 1) % d == 0,
        0 <= i % d < d,
        0 <= i / d,
        i == (i / d) * d + i % d,
{
    vstd::arithmetic::div_mod::lemma_fundamental_div_mod(i, d);
    vstd::arithmetic::div_mod::lemma_mod_bound(i, d);
    let q = i / d;
    let r = i % d;
    assert(d * q == q * d) by (nonlinear_arith);
    assert(0 <= q) by (nonlinear_arith)
        requires
            0 <= q * d + r,
            0 <= r < d,
    ;
    if r + 1 < d {
        lemma_div_mod_of_sum(q, d, r + 1);
    } else {
        assert((q + 1) * d + 0 == q * d + r + 1) by (nonlinear_arith)
            requires
                r + 1 == d,
        ;
        lemma_div_mod_of_sum(q + 1, d, 0);
    }
}

/// The mean of `count` bytes is a byte.
pub proof fn lemma_mean_is_byte(total: int, count: int)
    requires
        count > 0,
        0 <= total <= 255 * count,
    ensures
        0 <= total / count <= 255,
{
    vstd::arithmetic::div_mod::lemma_fundamental_div_mod(total, count);
    vstd::arithmetic::div_mod::lemma_mod_bound(total, count);
    let q = total / count;
    assert(0 <= q <= 255) by (nonlinear_arith)
        requires
            total == count * q + total % count,
            0 <= total % count < count,
            0 <= total <= 255 * count,
            count > 0,
    ;
}

} // verus!
