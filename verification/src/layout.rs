use vstd::prelude::*;
use vstd::arithmetic::div_mod::lemma_fundamental_div_mod_converse;
use crate::tensor::prod;

verus! {

// Row-major index arithmetic for the block-paged cache layouts.
//
// A key cache is laid out as [num_blocks, num_heads, head_size/x, block_size, x],
// where x is the inner vectorization width; a value cache as
// [num_blocks, num_heads, head_size, block_size]. The functions here encode a
// multi-index into the flat element position and recover the cache slot
// (block * block_size + offset) that a flat position belongs to.

/// Element (i, j) of a row-major array with inner extent `nj` lies at `i * nj + j`.
pub open spec fn enc2(i: int, j: int, nj: int) -> int {
    i * nj + j
}

/// Flat position of (i, j, k) in a row-major [_, nj, nk] array.
pub open spec fn enc3(i: int, j: int, k: int, nj: int, nk: int) -> int {
    enc2(enc2(i, j, nj), k, nk)
}

/// Flat position of element (b, h, s, off) of a value cache
/// shaped [num_blocks, nh, hs, bs].
pub open spec fn enc4(b: int, h: int, s: int, off: int, nh: int, hs: int, bs: int) -> int {
    enc2(enc3(b, h, s, nh, hs), off, bs)
}

/// Flat position of element (b, h, sx, off, xi) of a key cache
/// shaped [num_blocks, nh, nsx, bs, nx].
pub open spec fn enc5(
    b: int, h: int, sx: int, off: int, xi: int,
    nh: int, nsx: int, bs: int, nx: int,
) -> int {
    enc2(enc4(b, h, sx, off, nh, nsx, bs), xi, nx)
}

/// The cache slot (block * block_size + offset) that flat position `e` of a
/// key cache shaped [_, nh, nsx, bs, nx] belongs to.
pub open spec fn kc_slot_of(e: int, nh: int, nsx: int, bs: int, nx: int) -> int {
    (e / (nh * nsx * bs * nx)) * bs + (e / nx) % bs
}

/// The cache slot that flat position `e` of a value cache shaped
/// [_, nh, hs, bs] belongs to.
pub open spec fn vc_slot_of(e: int, nh: int, hs: int, bs: int) -> int {
    (e / (nh * hs * bs)) * bs + e % bs
}

pub proof fn lemma_enc2_bound(i: int, j: int, ni: int, nj: int)
    by (nonlinear_arith)
    requires
        0 <= i < ni,
        0 <= j < nj,
    ensures
        0 <= i * nj + j,
        i * nj + j < ni * nj,
{
}

pub proof fn lemma_enc2_inj(i1: int, j1: int, i2: int, j2: int, nj: int)
    by (nonlinear_arith)
    requires
        0 <= j1 < nj,
        0 <= j2 < nj,
        i1 * nj + j1 == i2 * nj + j2,
    ensures
        i1 == i2,
        j1 == j2,
{
}

/// Encoding then dividing (or taking the remainder) by the inner extent
/// recovers the two coordinates.
pub proof fn lemma_enc2_div_mod(i: int, j: int, nj: int)
    requires
        0 <= j < nj,
    ensures
        enc2(i, j, nj) / nj == i,
        enc2(i, j, nj) % nj == j,
{
    lemma_fundamental_div_mod_converse(i * nj + j, nj, i, j);
}

pub proof fn lemma_enc4_bound(
    b: int, h: int, s: int, off: int,
    nb: int, nh: int, hs: int, bs: int,
)
    requires
        0 <= b < nb,
        0 <= h < nh,
        0 <= s < hs,
        0 <= off < bs,
    ensures
        0 <= enc4(b, h, s, off, nh, hs, bs),
        enc4(b, h, s, off, nh, hs, bs) < nb * nh * hs * bs,
{
    lemma_enc2_bound(b, h, nb, nh);
    lemma_enc2_bound(enc2(b, h, nh), s, nb * nh, hs);
    lemma_enc2_bound(enc3(b, h, s, nh, hs), off, nb * nh * hs, bs);
    assert(nb * nh * hs * bs == ((nb * nh) * hs) * bs) by (nonlinear_arith);
}

pub proof fn lemma_enc5_bound(
    b: int, h: int, sx: int, off: int, xi: int,
    nb: int, nh: int, nsx: int, bs: int, nx: int,
)
    requires
        0 <= b < nb,
        0 <= h < nh,
        0 <= sx < nsx,
        0 <= off < bs,
        0 <= xi < nx,
    ensures
        0 <= enc5(b, h, sx, off, xi, nh, nsx, bs, nx),
        enc5(b, h, sx, off, xi, nh, nsx, bs, nx) < nb * nh * nsx * bs * nx,
{
    lemma_enc4_bound(b, h, sx, off, nb, nh, nsx, bs);
    lemma_enc2_bound(enc4(b, h, sx, off, nh, nsx, bs), xi, nb * nh * nsx * bs, nx);
    assert(nb * nh * nsx * bs * nx == (nb * nh * nsx * bs) * nx) by (nonlinear_arith);
}

/// Distinct value-cache multi-indices land on distinct flat positions.
pub proof fn lemma_enc4_inj(
    b1: int, h1: int, s1: int, off1: int,
    b2: int, h2: int, s2: int, off2: int,
    nh: int, hs: int, bs: int,
)
    requires
        0 <= h1 < nh,
        0 <= s1 < hs,
        0 <= off1 < bs,
        0 <= h2 < nh,
        0 <= s2 < hs,
        0 <= off2 < bs,
        enc4(b1, h1, s1, off1, nh, hs, bs) == enc4(b2, h2, s2, off2, nh, hs, bs),
    ensures
        b1 == b2,
        h1 == h2,
        s1 == s2,
        off1 == off2,
{
    lemma_enc2_inj(enc3(b1, h1, s1, nh, hs), off1, enc3(b2, h2, s2, nh, hs), off2, bs);
    lemma_enc2_inj(enc2(b1, h1, nh), s1, enc2(b2, h2, nh), s2, hs);
    lemma_enc2_inj(b1, h1, b2, h2, nh);
}

/// Distinct key-cache multi-indices land on distinct flat positions.
pub proof fn lemma_enc5_inj(
    b1: int, h1: int, sx1: int, off1: int, xi1: int,
    b2: int, h2: int, sx2: int, off2: int, xi2: int,
    nh: int, nsx: int, bs: int, nx: int,
)
    requires
        0 <= h1 < nh,
        0 <= sx1 < nsx,
        0 <= off1 < bs,
        0 <= xi1 < nx,
        0 <= h2 < nh,
        0 <= sx2 < nsx,
        0 <= off2 < bs,
        0 <= xi2 < nx,
        enc5(b1, h1, sx1, off1, xi1, nh, nsx, bs, nx)
            == enc5(b2, h2, sx2, off2, xi2, nh, nsx, bs, nx),
    ensures
        b1 == b2,
        h1 == h2,
        sx1 == sx2,
        off1 == off2,
        xi1 == xi2,
{
    lemma_enc2_inj(
        enc4(b1, h1, sx1, off1, nh, nsx, bs), xi1,
        enc4(b2, h2, sx2, off2, nh, nsx, bs), xi2, nx,
    );
    lemma_enc4_inj(b1, h1, sx1, off1, b2, h2, sx2, off2, nh, nsx, bs);
}

/// Splitting one row-major step: the leading coordinate's stride grows by
/// the inner extent.
proof fn lemma_mixed_radix_split(b: int, m: int, r: int, n: int, j: int)
    by (nonlinear_arith)
    ensures
        (b * m + r) * n + j == b * (m * n) + (r * n + j),
{
}

/// A key-cache element written at (b, h, sx, off, xi) belongs to slot
/// b * bs + off.
pub proof fn lemma_kc_slot_of_enc5(
    b: int, h: int, sx: int, off: int, xi: int,
    nh: int, nsx: int, bs: int, nx: int,
)
    requires
        0 <= b,
        0 <= h < nh,
        0 <= sx < nsx,
        0 <= off < bs,
        0 <= xi < nx,
    ensures
        kc_slot_of(enc5(b, h, sx, off, xi, nh, nsx, bs, nx), nh, nsx, bs, nx) == b * bs + off,
{
    let e = enc5(b, h, sx, off, xi, nh, nsx, bs, nx);
    // e / nx recovers the enc4 position, whose remainder by bs is off.
    lemma_enc2_div_mod(enc4(b, h, sx, off, nh, nsx, bs), xi, nx);
    lemma_enc2_div_mod(enc3(b, h, sx, nh, nsx), off, bs);
    assert((e / nx) % bs == off);
    // e splits as b * (nh * nsx * bs * nx) + remainder below that stride.
    let r = ((h * nsx + sx) * bs + off) * nx + xi;
    assert(e == (((b * nh + h) * nsx + sx) * bs + off) * nx + xi);
    lemma_mixed_radix_split(b, nh, h, nsx, sx);
    lemma_mixed_radix_split(b, nh * nsx, h * nsx + sx, bs, off);
    lemma_mixed_radix_split(b, nh * nsx * bs, (h * nsx + sx) * bs + off, nx, xi);
    assert(e == b * (nh * nsx * bs * nx) + r);
    assert(0 <= r < nh * nsx * bs * nx) by {
        lemma_enc4_bound(h, sx, off, xi, nh, nsx, bs, nx);
        assert(r == enc4(h, sx, off, xi, nsx, bs, nx));
        assert(nh * nsx * bs * nx == ((nh * nsx) * bs) * nx) by (nonlinear_arith);
    }
    lemma_fundamental_div_mod_converse(e, nh * nsx * bs * nx, b, r);
}

/// A value-cache element written at (b, h, s, off) belongs to slot
/// b * bs + off.
pub proof fn lemma_vc_slot_of_enc4(
    b: int, h: int, s: int, off: int,
    nh: int, hs: int, bs: int,
)
    requires
        0 <= b,
        0 <= h < nh,
        0 <= s < hs,
        0 <= off < bs,
    ensures
        vc_slot_of(enc4(b, h, s, off, nh, hs, bs), nh, hs, bs) == b * bs + off,
{
    let e = enc4(b, h, s, off, nh, hs, bs);
    lemma_enc2_div_mod(enc3(b, h, s, nh, hs), off, bs);
    assert(e % bs == off);
    let r = (h * hs + s) * bs + off;
    assert(e == ((b * nh + h) * hs + s) * bs + off);
    lemma_mixed_radix_split(b, nh, h, hs, s);
    lemma_mixed_radix_split(b, nh * hs, h * hs + s, bs, off);
    assert(e == b * (nh * hs * bs) + r);
    assert(0 <= r < nh * hs * bs) by {
        lemma_enc2_bound(h, s, nh, hs);
        lemma_enc2_bound(h * hs + s, off, nh * hs, bs);
        assert(nh * hs * bs == (nh * hs) * bs) by (nonlinear_arith);
    }
    lemma_fundamental_div_mod_converse(e, nh * hs * bs, b, r);
}

/// Unfolds the element count of a rank-1 shape.
pub proof fn lemma_prod1(d: Seq<usize>)
    requires
        d.len() == 1,
    ensures
        prod(d) == d[0],
{
    assert(d.skip(1).len() == 0);
    assert(prod(d.skip(1)) == 1);
}

/// Unfolds the element count of a rank-3 shape.
pub proof fn lemma_prod3(d: Seq<usize>)
    requires
        d.len() == 3,
    ensures
        prod(d) == d[0] * d[1] * d[2],
{
    let d1 = d.skip(1);
    let d2 = d1.skip(1);
    let d3 = d2.skip(1);
    assert(d3.len() == 0);
    assert(prod(d2) == d[2] * prod(d3));
    assert(prod(d1) == d[1] * prod(d2));
    assert(prod(d) == d[0] * prod(d1));
    assert(d[0] * (d[1] * (d[2] * 1)) == d[0] * d[1] * d[2]) by (nonlinear_arith);
}

/// Unfolds the element count of a rank-4 shape.
pub proof fn lemma_prod4(d: Seq<usize>)
    requires
        d.len() == 4,
    ensures
        prod(d) == d[0] * d[1] * d[2] * d[3],
{
    let d1 = d.skip(1);
    lemma_prod3(d1);
    assert(prod(d) == d[0] * prod(d1));
    assert(d1[0] == d[1] && d1[1] == d[2] && d1[2] == d[3]);
    assert(d[0] * (d[1] * d[2] * d[3]) == d[0] * d[1] * d[2] * d[3]) by (nonlinear_arith);
}

/// Unfolds the element count of a rank-5 shape.
pub proof fn lemma_prod5(d: Seq<usize>)
    requires
        d.len() == 5,
    ensures
        prod(d) == d[0] * d[1] * d[2] * d[3] * d[4],
{
    let d1 = d.skip(1);
    lemma_prod4(d1);
    assert(prod(d) == d[0] * prod(d1));
    assert(d1[0] == d[1] && d1[1] == d[2] && d1[2] == d[3] && d1[3] == d[4]);
    assert(d[0] * (d[1] * d[2] * d[3] * d[4]) == d[0] * d[1] * d[2] * d[3] * d[4])
        by (nonlinear_arith);
}

/// The element count of a shape is the leading dimension times the
/// per-leading-index element count.
pub proof fn lemma_prod_split_first(d: Seq<usize>)
    requires
        d.len() >= 1,
    ensures
        prod(d) == d[0] * prod(d.skip(1)),
{
}

/// Every per-index factor of a shape with no zero dimension is positive.
pub proof fn lemma_prod_pos(d: Seq<usize>)
    requires
        forall|i: int| 0 <= i < d.len() ==> d[i] >= 1,
    ensures
        prod(d) >= 1,
    decreases d.len(),
{
    if d.len() > 0 {
        lemma_prod_pos(d.skip(1));
        assert(prod(d) == d[0] * prod(d.skip(1)));
        assert(d[0] * prod(d.skip(1)) >= 1) by (nonlinear_arith)
            requires
                d[0] >= 1,
                prod(d.skip(1)) >= 1,
        ;
    }
}

} // verus!
