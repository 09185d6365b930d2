//! Peak detection on a radar cube of order keys.

use vstd::prelude::*;
use crate::cube::Cube;
use crate::order_key::{is_nan_bits, order_key_spec};

verus! {

/// The detection threshold: the order key of the magnitude `3e4`
/// (`30000.0_f64.to_bits()` is `0x40DD_4C00_0000_0000`).
pub const DETECTION_THRESHOLD: u64 = 0xC0DD_4C00_0000_0000;

/// Half the side of the cubic neighbourhood that a peak must dominate
/// (the neighbourhood is 9 samples wide along each axis).
pub const WINDOW_HALF_WIDTH: usize = 4;

/// Lower end of the neighbourhood of `c` along one axis.
pub open spec fn window_lo(c: int) -> int {
    if c >= WINDOW_HALF_WIDTH { c - WINDOW_HALF_WIDTH } else { 0 }
}

/// Upper end (inclusive) of the neighbourhood of `c` along an axis of length `n`.
pub open spec fn window_hi(c: int, n: int) -> int {
    if c + WINDOW_HALF_WIDTH <= n - 1 { c + WINDOW_HALF_WIDTH } else { n - 1 }
}

/// Whether `p` lies in the neighbourhood of `c` along an axis of length `n`.
pub open spec fn in_window(p: int, c: int, n: int) -> bool {
    window_lo(c) <= p <= window_hi(c, n)
}

/// Whether `(a0, a1, a2)` comes strictly before `(b0, b1, b2)` in row-major order.
pub open spec fn lex_lt(a0: int, a1: int, a2: int, b0: int, b1: int, b2: int) -> bool {
    a0 < b0 || (a0 == b0 && a1 < b1) || (a0 == b0 && a1 == b1 && a2 < b2)
}

/// Whether every other sample in the neighbourhood of `(i, j, k)` is strictly
/// below `val`.
pub open spec fn dominates_window(cube: Cube, i: int, j: int, k: int, val: u64) -> bool {
    forall|ii: int, jj: int, kk: int|
        #![trigger cube.at(ii, jj, kk)]
        in_window(ii, i, cube.nz() as int) && in_window(jj, j, cube.ny() as int) && in_window(
            kk,
            k,
            cube.nx() as int,
        ) && !(ii == i && jj == j && kk == k) ==> cube.at(ii, jj, kk) < val
}

/// A detection: a sample above the threshold that is the strict maximum of its
/// 9x9x9 neighbourhood (clipped at the borders of the cube).
pub open spec fn is_peak(cube: Cube, i: int, j: int, k: int) -> bool {
    &&& cube.contains_index(i, j, k)
    &&& cube.at(i, j, k) > DETECTION_THRESHOLD
    &&& dominates_window(cube, i, j, k, cube.at(i, j, k))
}

/// Whether every other sample in the neighbourhood of `(i, j, k)` is strictly below `val`.
fn is_local_max(cube: &Cube, nz: usize, ny: usize, nx: usize, i: usize, j: usize, k: usize, val: u64) -> (b: bool)
    requires
        nz == cube.nz(),
        ny == cube.ny(),
        nx == cube.nx(),
        cube.contains_index(i as int, j as int, k as int),
    ensures
        b == dominates_window(*cube, i as int, j as int, k as int, val),
{
    let i0 = i.saturating_sub(WINDOW_HALF_WIDTH);
    let i1 = if i.saturating_add(WINDOW_HALF_WIDTH) < nz - 1 { i.saturating_add(WINDOW_HALF_WIDTH) } else { nz - 1 };
    let j0 = j.saturating_sub(WINDOW_HALF_WIDTH);
    let j1 = if j.saturating_add(WINDOW_HALF_WIDTH) < ny - 1 { j.saturating_add(WINDOW_HALF_WIDTH) } else { ny - 1 };
    let k0 = k.saturating_sub(WINDOW_HALF_WIDTH);
    let k1 = if k.saturating_add(WINDOW_HALF_WIDTH) < nx - 1 { k.saturating_add(WINDOW_HALF_WIDTH) } else { nx - 1 };
    assert(i0 == window_lo(i as int) && i1 == window_hi(i as int, nz as int));
    assert(j0 == window_lo(j as int) && j1 == window_hi(j as int, ny as int));
    assert(k0 == window_lo(k as int) && k1 == window_hi(k as int, nx as int));
    let mut ii = i0;
    while ii <= i1
        invariant
            nz == cube.nz(),
            ny == cube.ny(),
            nx == cube.nx(),
            cube.contains_index(i as int, j as int, k as int),
            i0 == window_lo(i as int),
            i1 == window_hi(i as int, nz as int),
            j0 == window_lo(j as int),
            j1 == window_hi(j as int, ny as int),
            k0 == window_lo(k as int),
            k1 == window_hi(k as int, nx as int),
            i0 <= ii <= i1 + 1,
            forall|a: int, b: int, c: int|
                #![trigger cube.at(a, b, c)]
                i0 <= a < ii && j0 <= b <= j1 && k0 <= c <= k1 && !(a == i && b == j && c == k)
                    ==> cube.at(a, b, c) < val,
        decreases i1 + 1 - ii,
    {
        let mut jj = j0;
        while jj <= j1
            invariant
                nz == cube.nz(),
                ny == cube.ny(),
                nx == cube.nx(),
                cube.contains_index(i as int, j as int, k as int),
                i0 == window_lo(i as int),
                i1 == window_hi(i as int, nz as int),
                j0 == window_lo(j as int),
                j1 == window_hi(j as int, ny as int),
                k0 == window_lo(k as int),
                k1 == window_hi(k as int, nx as int),
                i0 <= ii <= i1,
                j0 <= jj <= j1 + 1,
                forall|a: int, b: int, c: int|
                    #![trigger cube.at(a, b, c)]
                    ((i0 <= a < ii && j0 <= b <= j1) || (a == ii && j0 <= b < jj)) && k0 <= c <= k1
                        && !(a == i && b == j && c == k) ==> cube.at(a, b, c) < val,
            decreases j1 + 1 - jj,
        {
            let mut kk = k0;
            while kk <= k1
                invariant
                    nz == cube.nz(),
                    ny == cube.ny(),
                    nx == cube.nx(),
                    cube.contains_index(i as int, j as int, k as int),
                    i0 == window_lo(i as int),
                    i1 == window_hi(i as int, nz as int),
                    j0 == window_lo(j as int),
                    j1 == window_hi(j as int, ny as int),
                    k0 == window_lo(k as int),
                    k1 == window_hi(k as int, nx as int),
                    i0 <= ii <= i1,
                    j0 <= jj <= j1,
                    k0 <= kk <= k1 + 1,
                    forall|a: int, b: int, c: int|
                        #![trigger cube.at(a, b, c)]
                        ((i0 <= a < ii && j0 <= b <= j1) || (a == ii && j0 <= b < jj) || (a == ii
                            && b == jj && k0 <= c < kk)) && k0 <= c <= k1 && !(a == i && b == j
                            && c == k) ==> cube.at(a, b, c) < val,
                decreases k1 + 1 - kk,
            {
                if !(ii == i && jj == j && kk == k) && cube.get(ii, jj, kk) >= val {
                    assert(in_window(ii as int, i as int, nz as int));
                    assert(in_window(jj as int, j as int, ny as int));
                    assert(in_window(kk as int, k as int, nx as int));
                    return false;
                }
                kk = kk + 1;
            }
            jj = jj + 1;
        }
        ii = ii + 1;
    }
    true
}

/// Finds the detections in a radar cube whose samples are order keys of the
/// magnitudes: every sample above `DETECTION_THRESHOLD` that is the strict
/// maximum of its 9x9x9 neighbourhood, in row-major order of the indices.
pub fn detect(cube: &Cube) -> (res: Vec<(usize, usize, usize)>)
    ensures
        forall|r: int|
            0 <= r < res.len() ==> is_peak(
                *cube,
                #[trigger] res@[r].0 as int,
                res@[r].1 as int,
                res@[r].2 as int,
            ),
        forall|r: int, s: int|
            0 <= r < s < res.len() ==> lex_lt(
                #[trigger] res@[r].0 as int,
                res@[r].1 as int,
                res@[r].2 as int,
                #[trigger] res@[s].0 as int,
                res@[s].1 as int,
                res@[s].2 as int,
            ),
        forall|i: usize, j: usize, k: usize|
            is_peak(*cube, i as int, j as int, k as int) ==> #[trigger] res@.contains((i, j, k)),
{
    let (nz, ny, nx) = cube.dim();
    let mut res: Vec<(usize, usize, usize)> = Vec::new();
    let mut i: usize = 0;
    while i < nz
        invariant
            nz == cube.nz(),
            ny == cube.ny(),
            nx == cube.nx(),
            i <= nz,
            forall|r: int|
                0 <= r < res.len() ==> is_peak(
                    *cube,
                    #[trigger] res@[r].0 as int,
                    res@[r].1 as int,
                    res@[r].2 as int,
                ),
            forall|r: int, s: int|
                0 <= r < s < res.len() ==> lex_lt(
                    #[trigger] res@[r].0 as int,
                    res@[r].1 as int,
                    res@[r].2 as int,
                    #[trigger] res@[s].0 as int,
                    res@[s].1 as int,
                    res@[s].2 as int,
                ),
            forall|r: int| 0 <= r < res.len() ==> (#[trigger] res@[r]).0 < i,
            forall|a: usize, b: usize, c: usize|
                is_peak(*cube, a as int, b as int, c as int) && a < i ==> #[trigger] res@.contains(
                    (a, b, c),
                ),
        decreases nz - i,
    {
        let mut j: usize = 0;
        while j < ny
            invariant
                nz == cube.nz(),
                ny == cube.ny(),
                nx == cube.nx(),
                i < nz,
                j <= ny,
                forall|r: int|
                    0 <= r < res.len() ==> is_peak(
                        *cube,
                        #[trigger] res@[r].0 as int,
                        res@[r].1 as int,
                        res@[r].2 as int,
                    ),
                forall|r: int, s: int|
                    0 <= r < s < res.len() ==> lex_lt(
                        #[trigger] res@[r].0 as int,
                        res@[r].1 as int,
                        res@[r].2 as int,
                        #[trigger] res@[s].0 as int,
                        res@[s].1 as int,
                        res@[s].2 as int,
                    ),
                forall|r: int|
                    0 <= r < res.len() ==> (#[trigger] res@[r]).0 < i || (res@[r].0 == i
                        && res@[r].1 < j),
                forall|a: usize, b: usize, c: usize|
                    is_peak(*cube, a as int, b as int, c as int) && (a < i || (a == i && b < j))
                        ==> #[trigger] res@.contains((a, b, c)),
            decreases ny - j,
        {
            let mut k: usize = 0;
            while k < nx
                invariant
                    nz == cube.nz(),
                    ny == cube.ny(),
                    nx == cube.nx(),
                    i < nz,
                    j < ny,
                    k <= nx,
                    forall|r: int|
                        0 <= r < res.len() ==> is_peak(
                            *cube,
                            #[trigger] res@[r].0 as int,
                            res@[r].1 as int,
                            res@[r].2 as int,
                        ),
                    forall|r: int, s: int|
                        0 <= r < s < res.len() ==> lex_lt(
                            #[trigger] res@[r].0 as int,
                            res@[r].1 as int,
                            res@[r].2 as int,
                            #[trigger] res@[s].0 as int,
                            res@[s].1 as int,
                            res@[s].2 as int,
                        ),
                    forall|r: int|
                        0 <= r < res.len() ==> lex_lt(
                            (#[trigger] res@[r]).0 as int,
                            res@[r].1 as int,
                            res@[r].2 as int,
                            i as int,
                            j as int,
                            k as int,
                        ),
                    forall|a: usize, b: usize, c: usize|
                        is_peak(*cube, a as int, b as int, c as int) && lex_lt(
                            a as int,
                            b as int,
                            c as int,
                            i as int,
                            j as int,
                            k as int,
                        ) ==> #[trigger] res@.contains((a, b, c)),
                decreases nx - k,
            {
                let val = cube.get(i, j, k);
                if val > DETECTION_THRESHOLD && is_local_max(cube, nz, ny, nx, i, j, k, val) {
                    let ghost old_res = res@;
                    res.push((i, j, k));
                    assert(res@[res.len() - 1] == (i, j, k));
                    assert forall|a: usize, b: usize, c: usize|
                        is_peak(*cube, a as int, b as int, c as int) && lex_lt(
                            a as int,
                            b as int,
                            c as int,
                            i as int,
                            j as int,
                            (k + 1) as int,
                        ) implies #[trigger] res@.contains((a, b, c)) by {
                        if a == i && b == j && c == k {
                            assert(res@[res.len() - 1] == (a, b, c));
                        } else {
                            assert(old_res.contains((a, b, c)));
                            let w = choose|w: int| 0 <= w < old_res.len() && old_res[w] == (a, b, c);
                            assert(res@[w] == (a, b, c));
                        }
                    }
                }
                k = k + 1;
            }
            j = j + 1;
        }
        i = i + 1;
    }
    res
}

/// No two detections lie in one another's neighbourhood: a detection is the
/// strict maximum of its neighbourhood, so a second detection within it would
/// have to be both above and below the first.
pub proof fn lemma_detections_are_separated(cube: Cube, i: int, j: int, k: int, a: int, b: int, c: int)
    requires
        is_peak(cube, i, j, k),
        is_peak(cube, a, b, c),
        !(i == a && j == b && k == c),
    ensures
        !(in_window(a, i, cube.nz() as int) && in_window(b, j, cube.ny() as int) && in_window(
            c,
            k,
            cube.nx() as int,
        )),
{
    if in_window(a, i, cube.nz() as int) && in_window(b, j, cube.ny() as int) && in_window(
        c,
        k,
        cube.nx() as int,
    ) {
        assert(cube.at(a, b, c) < cube.at(i, j, k));
        assert(in_window(i, a, cube.nz() as int));
        assert(in_window(j, b, cube.ny() as int));
        assert(in_window(k, c, cube.nx() as int));
        assert(cube.at(i, j, k) < cube.at(a, b, c));
    }
}

/// The detection threshold is the order key of the magnitude `3e4`, whose
/// bit pattern is `0x40DD_4C00_0000_0000`.
pub proof fn lemma_threshold_is_key_of_3e4()
    ensures
        DETECTION_THRESHOLD == order_key_spec(0x40DD_4C00_0000_0000),
{
    assert(0x40DD_4C00_0000_0000u64 & 0x7FFF_FFFF_FFFF_FFFFu64 <= 0x7FF0_0000_0000_0000u64) by (bit_vector);
    assert(0x40DD_4C00_0000_0000u64 & 0x8000_0000_0000_0000u64 == 0) by (bit_vector);
    assert(0x40DD_4C00_0000_0000u64 | 0x8000_0000_0000_0000u64 == 0xC0DD_4C00_0000_0000u64) by (bit_vector);
}

/// A sample whose key is that of a NaN is never a detection, and never
/// stops a neighbour from being one: its key, `0`, is below the threshold and
/// below every sample that passes it.
pub proof fn lemma_nan_is_never_detected(cube: Cube, i: int, j: int, k: int, bits: u64)
    requires
        is_nan_bits(bits),
        cube.at(i, j, k) == order_key_spec(bits),
    ensures
        !is_peak(cube, i, j, k),
        forall|a: int, b: int, c: int|
            #[trigger] cube.at(a, b, c) > DETECTION_THRESHOLD ==> cube.at(i, j, k) < cube.at(a, b, c),
{
}

/// What a detection is, in terms of the samples alone: an index of the cube
/// whose sample is above the threshold (the key of 3e4) and strictly greater,
/// by any amount, than every other sample at most 4 indices away along each
/// axis (9 samples wide, clipped at the borders). Samples 5 or more indices
/// away, the position of the index and the size of the value play no part.
pub proof fn lemma_peak_is_window_maximum(cube: Cube, i: int, j: int, k: int)
    ensures
        is_peak(cube, i, j, k) <==> {
            &&& 0 <= i < cube.nz() && 0 <= j < cube.ny() && 0 <= k < cube.nx()
            &&& cube.at(i, j, k) > DETECTION_THRESHOLD
            &&& forall|ii: int, jj: int, kk: int|
                #![trigger cube.at(ii, jj, kk)]
                0 <= ii < cube.nz() && i - 4 <= ii <= i + 4 && 0 <= jj < cube.ny() && j - 4 <= jj
                    <= j + 4 && 0 <= kk < cube.nx() && k - 4 <= kk <= k + 4 && !(ii == i && jj
                    == j && kk == k) ==> cube.at(ii, jj, kk) < cube.at(i, j, k)
        },
{
}

/// A sample above the threshold in a cube where every other sample is at or
/// below it is detected, wherever it stands.
pub proof fn lemma_lone_sample_is_detected(cube: Cube, i: int, j: int, k: int)
    requires
        0 <= i < cube.nz(),
        0 <= j < cube.ny(),
        0 <= k < cube.nx(),
        cube.at(i, j, k) > DETECTION_THRESHOLD,
        forall|ii: int, jj: int, kk: int|
            #![trigger cube.at(ii, jj, kk)]
            0 <= ii < cube.nz() && 0 <= jj < cube.ny() && 0 <= kk < cube.nx() && !(ii == i && jj
                == j && kk == k) ==> cube.at(ii, jj, kk) <= DETECTION_THRESHOLD,
    ensures
        is_peak(cube, i, j, k),
{
    lemma_peak_is_window_maximum(cube, i, j, k);
}

/// Raising the sample of a detection, all other samples unchanged, keeps it a
/// detection: there is no upper bound on the value of a peak.
pub proof fn lemma_raised_peak_stays_detected(c1: Cube, c2: Cube, i: int, j: int, k: int)
    requires
        is_peak(c1, i, j, k),
        c2.nz() == c1.nz(),
        c2.ny() == c1.ny(),
        c2.nx() == c1.nx(),
        c2.at(i, j, k) >= c1.at(i, j, k),
        forall|ii: int, jj: int, kk: int|
            #![trigger c2.at(ii, jj, kk)]
            !(ii == i && jj == j && kk == k) ==> c2.at(ii, jj, kk) == c1.at(ii, jj, kk),
    ensures
        is_peak(c2, i, j, k),
{
    lemma_peak_is_window_maximum(c1, i, j, k);
    lemma_peak_is_window_maximum(c2, i, j, k);
    assert forall|ii: int, jj: int, kk: int|
        0 <= ii < c2.nz() && i - 4 <= ii <= i + 4 && 0 <= jj < c2.ny() && j - 4 <= jj <= j + 4
            && 0 <= kk < c2.nx() && k - 4 <= kk <= k + 4 && !(ii == i && jj == j && kk == k)
        implies #[trigger] c2.at(ii, jj, kk) < c2.at(i, j, k) by {
        assert(c1.at(ii, jj, kk) < c1.at(i, j, k));
    }
}

/// Detection is local: two cubes of one shape that agree on the 9x9x9
/// neighbourhood of an index agree on whether it is a detection, whatever
/// they hold further away.
pub proof fn lemma_detection_is_local(c1: Cube, c2: Cube, i: int, j: int, k: int)
    requires
        c2.nz() == c1.nz(),
        c2.ny() == c1.ny(),
        c2.nx() == c1.nx(),
        forall|ii: int, jj: int, kk: int|
            #![trigger c2.at(ii, jj, kk)]
            i - 4 <= ii <= i + 4 && j - 4 <= jj <= j + 4 && k - 4 <= kk <= k + 4 ==> c2.at(
                ii,
                jj,
                kk,
            ) == c1.at(ii, jj, kk),
    ensures
        is_peak(c1, i, j, k) <==> is_peak(c2, i, j, k),
{
    lemma_peak_is_window_maximum(c1, i, j, k);
    lemma_peak_is_window_maximum(c2, i, j, k);
    assert(c2.at(i, j, k) == c1.at(i, j, k));
    if is_peak(c1, i, j, k) {
        assert forall|ii: int, jj: int, kk: int|
            0 <= ii < c2.nz() && i - 4 <= ii <= i + 4 && 0 <= jj < c2.ny() && j - 4 <= jj <= j + 4
                && 0 <= kk < c2.nx() && k - 4 <= kk <= k + 4 && !(ii == i && jj == j && kk == k)
            implies #[trigger] c2.at(ii, jj, kk) < c2.at(i, j, k) by {
            assert(c1.at(ii, jj, kk) < c1.at(i, j, k));
        }
    }
    if is_peak(c2, i, j, k) {
        assert forall|ii: int, jj: int, kk: int|
            0 <= ii < c1.nz() && i - 4 <= ii <= i + 4 && 0 <= jj < c1.ny() && j - 4 <= jj <= j + 4
                && 0 <= kk < c1.nx() && k - 4 <= kk <= k + 4 && !(ii == i && jj == j && kk == k)
            implies #[trigger] c1.at(ii, jj, kk) < c1.at(i, j, k) by {
            assert(c2.at(ii, jj, kk) < c2.at(i, j, k));
        }
    }
}

/// The order of detections is row-major: for indices of a cube with `ny`
/// rows of `nx` samples per plane, `lex_lt` holds exactly when the first index
/// comes earlier in the row-major layout of the samples.
pub proof fn lemma_lex_lt_is_row_major(a0: int, a1: int, a2: int, b0: int, b1: int, b2: int, ny: int, nx: int)
    requires
        0 <= a0,
        0 <= b0,
        0 <= a1 < ny,
        0 <= b1 < ny,
        0 <= a2 < nx,
        0 <= b2 < nx,
    ensures
        lex_lt(a0, a1, a2, b0, b1, b2) <==> (a0 * ny + a1) * nx + a2 < (b0 * ny + b1) * nx + b2,
{
    if lex_lt(a0, a1, a2, b0, b1, b2) {
        lemma_row_major_step(a0, a1, a2, b0, b1, b2, ny, nx);
    } else if lex_lt(b0, b1, b2, a0, a1, a2) {
        lemma_row_major_step(b0, b1, b2, a0, a1, a2, ny, nx);
    }
}

proof fn lemma_row_major_step(a0: int, a1: int, a2: int, b0: int, b1: int, b2: int, ny: int, nx: int)
    requires
        0 <= a0,
        0 <= b0,
        0 <= a1 < ny,
        0 <= b1 < ny,
        0 <= a2 < nx,
        0 <= b2 < nx,
        lex_lt(a0, a1, a2, b0, b1, b2),
    ensures
        (a0 * ny + a1) * nx + a2 < (b0 * ny + b1) * nx + b2,
{
    if a0 < b0 {
        assert(a0 * ny + a1 + 1 <= b0 * ny + b1) by (nonlinear_arith)
            requires
                a0 < b0,
                0 <= a1 < ny,
                0 <= b1,
        ;
        assert((a0 * ny + a1) * nx + a2 < (a0 * ny + a1 + 1) * nx) by (nonlinear_arith)
            requires
                a2 < nx,
        ;
        assert((a0 * ny + a1 + 1) * nx <= (b0 * ny + b1) * nx) by (nonlinear_arith)
            requires
                a0 * ny + a1 + 1 <= b0 * ny + b1,
                nx > 0,
        ;
    } else if a1 < b1 {
        assert((a0 * ny + a1) * nx + a2 < (a0 * ny + a1 + 1) * nx) by (nonlinear_arith)
            requires
                a2 < nx,
        ;
        assert((a0 * ny + a1 + 1) * nx <= (b0 * ny + b1) * nx) by (nonlinear_arith)
            requires
                a0 == b0,
                a1 + 1 <= b1,
                nx > 0,
        ;
    } else {
        assert(a0 * ny + a1 == b0 * ny + b1);
    }
}

} // verus!
