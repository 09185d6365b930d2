//! Centring of FFT spectra: the re-ordering of bins that puts frequency zero
//! in the middle (`fftshift`), for single bins and for the rows of a map.

use vstd::prelude::*;

verus! {

/// The position of FFT bin `index` once the spectrum is centred (the
/// `fftshift` of a spectrum of `n` bins): `(index + n / 2) % n`.
/// It places the angle bins of the radar cube, and the Doppler rows of the
/// range-Doppler map.
pub fn fftshift_bin(index: usize, n: usize) -> (b: usize)
    requires
        n > 0,
    ensures
        b == (index + n / 2) % (n as int),
{
    let r = index % n;
    let h = n / 2;
    assert(r + h < n + n);
    let s = if r >= n - h { r - (n - h) } else { r + h };
    proof {
        vstd::arithmetic::div_mod::lemma_add_mod_noop(index as int, h as int, n as int);
        vstd::arithmetic::div_mod::lemma_small_mod(h as nat, n as nat);
        if r >= n - h {
            vstd::arithmetic::div_mod::lemma_mod_sub_multiples_vanish((r + h) as int, n as int);
            vstd::arithmetic::div_mod::lemma_small_mod((r + h - n) as nat, n as nat);
        } else {
            vstd::arithmetic::div_mod::lemma_small_mod((r + h) as nat, n as nat);
        }
    }
    s
}

/// The position of Doppler bin `index` among `n` chirps once the spectrum is
/// centred: `(index + 1 + n / 2) % n`.
pub fn doppler_bin(index: usize, n: usize) -> (b: usize)
    requires
        n > 0,
    ensures
        b == (index + 1 + n / 2) % (n as int),
{
    let r = index % n;
    let h = (1 + n / 2) % n;
    let s = if r >= n - h { r - (n - h) } else { r + h };
    proof {
        vstd::arithmetic::div_mod::lemma_add_mod_noop(index as int, (1 + n / 2) as int, n as int);
        if r >= n - h {
            vstd::arithmetic::div_mod::lemma_mod_sub_multiples_vanish((r + h) as int, n as int);
            vstd::arithmetic::div_mod::lemma_small_mod((r + h - n) as nat, n as nat);
        } else {
            vstd::arithmetic::div_mod::lemma_small_mod((r + h) as nat, n as nat);
        }
    }
    s
}

/// Centres a map of `ny` rows of `nx` values, stored row-major, along its rows:
/// row `y` of the result is row `(y + ny / 2) % ny` of `values`. This puts
/// zero velocity in the middle of a range-Doppler map.
pub fn fftshift_rows<T: Copy>(values: &Vec<T>, ny: usize, nx: usize) -> (res: Vec<T>)
    requires
        values.len() == ny * nx,
    ensures
        res.len() == ny * nx,
        forall|y: int, x: int|
            0 <= y < ny && 0 <= x < nx ==> #[trigger] res@[y * nx + x] == values@[((y + ny / 2)
                % (ny as int)) * nx + x],
{
    let mut res: Vec<T> = Vec::new();
    let mut y: usize = 0;
    while y < ny
        invariant
            values.len() == ny * nx,
            y <= ny,
            res.len() == y * nx,
            forall|yy: int, x: int|
                0 <= yy < y && 0 <= x < nx ==> #[trigger] res@[yy * nx + x] == values@[((yy + ny
                    / 2) % (ny as int)) * nx + x],
        decreases ny - y,
    {
        let src = fftshift_bin(y, ny);
        assert(src * nx + nx <= ny * nx) by (nonlinear_arith)
            requires
                src < ny,
        ;
        assert((y + 1) * nx <= ny * nx) by (nonlinear_arith)
            requires
                y < ny,
        ;
        let mut x: usize = 0;
        while x < nx
            invariant
                values.len() == ny * nx,
                y < ny,
                src < ny,
                src == (y + ny / 2) % (ny as int),
                src * nx + nx <= ny * nx,
                (y + 1) * nx <= ny * nx,
                x <= nx,
                res.len() == y * nx + x,
                forall|yy: int, xx: int|
                    0 <= yy < y && 0 <= xx < nx ==> #[trigger] res@[yy * nx + xx] == values@[((yy
                        + ny / 2) % (ny as int)) * nx + xx],
                forall|xx: int| 0 <= xx < x ==> #[trigger] res@[y * nx + xx] == values@[src * nx + xx],
            decreases nx - x,
        {
            let v = values[src * nx + x];
            let ghost before = res@;
            res.push(v);
            proof {
                assert forall|yy: int, xx: int| 0 <= yy < y && 0 <= xx < nx implies #[trigger] res@[yy
                    * nx + xx] == values@[((yy + ny / 2) % (ny as int)) * nx + xx] by {
                    assert(yy * nx + xx < y * nx) by (nonlinear_arith)
                        requires
                            yy < y,
                            xx < nx,
                    ;
                    assert(res@[yy * nx + xx] == before[yy * nx + xx]);
                }
            }
            x = x + 1;
        }
        proof {
            assert(res.len() == (y + 1) * nx) by (nonlinear_arith)
                requires
                    res.len() == y * nx + nx,
            ;
        }
        y = y + 1;
    }
    res
}

/// Centring the spectrum moves each of the `n` bins to a distinct bin among
/// the `n`: `fftshift_bin` permutes `0..n`.
pub proof fn lemma_fftshift_bin_permutes(n: int, a: int, b: int)
    requires
        n > 0,
        0 <= a < n,
        0 <= b < n,
        a != b,
    ensures
        0 <= (a + n / 2) % n < n,
        (a + n / 2) % n != (b + n / 2) % n,
{
    lemma_shift_injective(n, n / 2, a, b);
}

/// The Doppler re-ordering also permutes the `n` bins: `doppler_bin` is one-to-one on `0..n`.
pub proof fn lemma_doppler_bin_permutes(n: int, a: int, b: int)
    requires
        n > 0,
        0 <= a < n,
        0 <= b < n,
        a != b,
    ensures
        0 <= (a + 1 + n / 2) % n < n,
        (a + 1 + n / 2) % n != (b + 1 + n / 2) % n,
{
    lemma_shift_injective(n, 1 + n / 2, a, b);
    assert(a + 1 + n / 2 == a + (1 + n / 2));
    assert(b + 1 + n / 2 == b + (1 + n / 2));
}

proof fn lemma_shift_injective(n: int, h: int, a: int, b: int)
    requires
        n > 0,
        h >= 0,
        0 <= a < n,
        0 <= b < n,
        a != b,
    ensures
        0 <= (a + h) % n < n,
        (a + h) % n != (b + h) % n,
{
    vstd::arithmetic::div_mod::lemma_mod_bound(a + h, n);
    vstd::arithmetic::div_mod::lemma_fundamental_div_mod(a + h, n);
    vstd::arithmetic::div_mod::lemma_fundamental_div_mod(b + h, n);
    if (a + h) % n == (b + h) % n {
        // a - b == n * ((a + h) / n - (b + h) / n), a multiple of n strictly between -n and n
        let q = (a + h) / n - (b + h) / n;
        assert(a - b == n * q) by (nonlinear_arith)
            requires
                a + h == n * ((a + h) / n) + (a + h) % n,
                b + h == n * ((b + h) / n) + (b + h) % n,
                (a + h) % n == (b + h) % n,
                q == (a + h) / n - (b + h) / n,
        ;
        if q >= 1 {
            assert(n * q >= n) by (nonlinear_arith)
                requires
                    q >= 1,
                    n > 0,
            ;
        } else if q <= -1 {
            assert(n * q <= -n) by (nonlinear_arith)
                requires
                    q <= -1,
                    n > 0,
            ;
        } else {
            assert(q == 0);
        }
    }
}

} // verus!
