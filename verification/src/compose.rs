use vstd::prelude::*;

use crate::plane::{Error, ImagePlane};

verus! {

/// Absolute value of a mathematical integer.
pub open spec fn abs_val(v: int) -> int {
    if v >= 0 {
        v
    } else {
        -v
    }
}

/// Clamps `v` into the inclusive range `[lo, hi]`.
pub open spec fn clamp(v: int, lo: int, hi: int) -> int {
    if v < lo {
        lo
    } else if v > hi {
        hi
    } else {
        v
    }
}

/// Integer division truncated toward zero (the sign-and-magnitude
/// quotient), defined for `q != 0`.
pub open spec fn tdiv(p: int, q: int) -> int {
    if (p >= 0) == (q >= 0) {
        abs_val(p) / abs_val(q)
    } else {
        -(abs_val(p) / abs_val(q))
    }
}

/// One output channel at one pixel: the luminance `l` scaled by channel
/// `c`'s share of the chrominance sum. The rounding rule of this library
/// is: the exact rational `l * c / sum` is truncated toward zero, then
/// clamped to the encoding's value range `[lo, hi]`.
pub open spec fn share(l: int, c: int, sum: int, lo: int, hi: int) -> int {
    clamp(tdiv(l * c, sum), lo, hi)
}

/// The per-pixel composite rule for nullable samples: a pixel with a
/// missing sample on any input, or with a zero chrominance sum, is black;
/// otherwise the luminance is redistributed across the three channels in
/// proportion to their chrominance ratios.
pub open spec fn pixel_rgb(
    l: Option<int>,
    r: Option<int>,
    g: Option<int>,
    b: Option<int>,
    lo: int,
    hi: int,
) -> (int, int, int) {
    match (l, r, g, b) {
        (Some(lv), Some(rv), Some(gv), Some(bv)) => {
            let sum = rv + gv + bv;
            if sum == 0 {
                (0, 0, 0)
            } else {
                (
                    share(lv, rv, sum, lo, hi),
                    share(lv, gv, sum, lo, hi),
                    share(lv, bv, sum, lo, hi),
                )
            }
        },
        _ => (0, 0, 0),
    }
}

pub open spec fn opt_i32(v: Option<i32>) -> Option<int> {
    match v {
        Some(x) => Some(x as int),
        None => None,
    }
}

pub open spec fn opt_u32(v: Option<u32>) -> Option<int> {
    match v {
        Some(x) => Some(x as int),
        None => None,
    }
}

/// The per-pixel rule at 32-bit signed integer encoding.
pub open spec fn pixel_i32(l: Option<i32>, r: Option<i32>, g: Option<i32>, b: Option<i32>) -> (
    int,
    int,
    int,
) {
    pixel_rgb(opt_i32(l), opt_i32(r), opt_i32(g), opt_i32(b), -0x8000_0000, 0x7FFF_FFFF)
}

/// The per-pixel rule at 32-bit unsigned integer encoding.
pub open spec fn pixel_u32(l: Option<u32>, r: Option<u32>, g: Option<u32>, b: Option<u32>) -> (
    int,
    int,
    int,
) {
    pixel_rgb(opt_u32(l), opt_u32(r), opt_u32(g), opt_u32(b), 0, 0xFFFF_FFFF)
}

/// The three channel values of pixel `i` sit at output indices `i`,
/// `i + total` and `i + 2 * total`: planar layout, red block first.
pub open spec fn pixel_ok(
    out: Seq<int>,
    l: Seq<Option<int>>,
    r: Seq<Option<int>>,
    g: Seq<Option<int>>,
    b: Seq<Option<int>>,
    total: int,
    lo: int,
    hi: int,
    i: int,
) -> bool {
    &&& out[i] == pixel_rgb(l[i], r[i], g[i], b[i], lo, hi).0
    &&& out[i + total] == pixel_rgb(l[i], r[i], g[i], b[i], lo, hi).1
    &&& out[i + 2 * total] == pixel_rgb(l[i], r[i], g[i], b[i], lo, hi).2
}

/// `out` is the color composite of the four input planes: three planar
/// blocks of `total` samples each, every pixel following the per-pixel
/// composite rule.
pub open spec fn composed(
    out: Seq<int>,
    l: Seq<Option<int>>,
    r: Seq<Option<int>>,
    g: Seq<Option<int>>,
    b: Seq<Option<int>>,
    total: int,
    lo: int,
    hi: int,
) -> bool {
    &&& out.len() == 3 * total
    &&& forall|i: int| 0 <= i < total ==> #[trigger] pixel_ok(out, l, r, g, b, total, lo, hi, i)
}

/// A 32-bit signed sample sequence as mathematical integers.
pub open spec fn seq_i32(s: Seq<i32>) -> Seq<int> {
    s.map_values(|v: i32| v as int)
}

/// A 32-bit unsigned sample sequence as mathematical integers.
pub open spec fn seq_u32(s: Seq<u32>) -> Seq<int> {
    s.map_values(|v: u32| v as int)
}

/// A nullable 32-bit signed plane as nullable mathematical integers.
pub open spec fn seq_opt_i32(s: Seq<Option<i32>>) -> Seq<Option<int>> {
    s.map_values(|v: Option<i32>| opt_i32(v))
}

/// A nullable 32-bit unsigned plane as nullable mathematical integers.
pub open spec fn seq_opt_u32(s: Seq<Option<u32>>) -> Seq<Option<int>> {
    s.map_values(|v: Option<u32>| opt_u32(v))
}

pub open spec fn composed_i32(
    out: Seq<i32>,
    l: Seq<Option<i32>>,
    r: Seq<Option<i32>>,
    g: Seq<Option<i32>>,
    b: Seq<Option<i32>>,
    total: int,
) -> bool {
    composed(
        seq_i32(out),
        seq_opt_i32(l),
        seq_opt_i32(r),
        seq_opt_i32(g),
        seq_opt_i32(b),
        total,
        -0x8000_0000,
        0x7FFF_FFFF,
    )
}

pub open spec fn composed_u32(
    out: Seq<u32>,
    l: Seq<Option<u32>>,
    r: Seq<Option<u32>>,
    g: Seq<Option<u32>>,
    b: Seq<Option<u32>>,
    total: int,
) -> bool {
    composed(
        seq_u32(out),
        seq_opt_u32(l),
        seq_opt_u32(r),
        seq_opt_u32(g),
        seq_opt_u32(b),
        total,
        0,
        0xFFFF_FFFF,
    )
}

proof fn lemma_abs_mul(x: int, y: int)
    ensures
        abs_val(x * y) == abs_val(x) * abs_val(y),
{
    if x >= 0 && y >= 0 {
        assert(x * y >= 0) by (nonlinear_arith)
            requires
                x >= 0 && y >= 0,
        ;
    } else if x >= 0 && y < 0 {
        assert(x * y <= 0 && -(x * y) == x * (-y)) by (nonlinear_arith)
            requires
                x >= 0 && y < 0,
        ;
    } else if x < 0 && y >= 0 {
        assert(x * y <= 0 && -(x * y) == (-x) * y) by (nonlinear_arith)
            requires
                x < 0 && y >= 0,
        ;
    } else {
        assert(x * y >= 0 && x * y == (-x) * (-y)) by (nonlinear_arith)
            requires
                x < 0 && y < 0,
        ;
    }
}

proof fn lemma_mul_sign(x: int, y: int)
    requires
        x != 0,
        y != 0,
    ensures
        x * y != 0,
        (x * y < 0) <==> ((x < 0) != (y < 0)),
{
    if x > 0 && y > 0 {
        assert(x * y > 0) by (nonlinear_arith)
            requires
                x > 0 && y > 0,
        ;
    } else if x > 0 && y < 0 {
        assert(x * y < 0) by (nonlinear_arith)
            requires
                x > 0 && y < 0,
        ;
    } else if x < 0 && y > 0 {
        assert(x * y < 0) by (nonlinear_arith)
            requires
                x < 0 && y > 0,
        ;
    } else {
        assert(x * y > 0) by (nonlinear_arith)
            requires
                x < 0 && y < 0,
        ;
    }
}

/// One output channel at 32-bit unsigned encoding.
fn share_u32(l: u32, c: u32, sum: u64) -> (res: u32)
    requires
        sum != 0,
    ensures
        res as int == share(l as int, c as int, sum as int, 0, 0xFFFF_FFFF),
{
    proof {
        assert((l as int) * (c as int) <= 0xFFFF_FFFF * 0xFFFF_FFFF) by (nonlinear_arith)
            requires
                0 <= l as int <= 0xFFFF_FFFF && 0 <= c as int <= 0xFFFF_FFFF,
        ;
    }
    let p: u64 = (l as u64) * (c as u64);
    let q: u64 = p / sum;
    proof {
        assert(abs_val((l as int) * (c as int)) == (l as int) * (c as int)) by {
            assert((l as int) * (c as int) >= 0) by (nonlinear_arith)
                requires
                    l as int >= 0 && c as int >= 0,
            ;
        }
        assert(tdiv((l as int) * (c as int), sum as int) == q as int);
    }
    if q > 0xFFFF_FFFF {
        u32::MAX
    } else {
        q as u32
    }
}

/// One output channel at 32-bit signed encoding.
fn share_i32(l: i32, c: i32, sum: i64) -> (res: i32)
    requires
        sum != 0,
        i64::MIN < sum,
    ensures
        res as int == share(l as int, c as int, sum as int, -0x8000_0000, 0x7FFF_FFFF),
{
    let la: u64 = if l >= 0 {
        l as u64
    } else {
        (-(l as i64)) as u64
    };
    let ca: u64 = if c >= 0 {
        c as u64
    } else {
        (-(c as i64)) as u64
    };
    let sa: u64 = if sum >= 0 {
        sum as u64
    } else {
        (-sum) as u64
    };
    proof {
        assert(la as int == abs_val(l as int));
        assert(ca as int == abs_val(c as int));
        assert(sa as int == abs_val(sum as int));
        assert((la as int) * (ca as int) <= 0x8000_0000 * 0x8000_0000) by (nonlinear_arith)
            requires
                0 <= la as int <= 0x8000_0000 && 0 <= ca as int <= 0x8000_0000,
        ;
    }
    let p: u64 = la * ca;
    let q: u64 = p / sa;
    let neg: bool = ((l < 0) != (c < 0)) != (sum < 0);
    proof {
        let li = l as int;
        let ci = c as int;
        let si = sum as int;
        lemma_abs_mul(li, ci);
        assert(abs_val(li * ci) == p as int);
        assert(abs_val(li * ci) / abs_val(si) == q as int);
        if q != 0 {
            assert(li != 0 && ci != 0) by {
                if li == 0 {
                    assert(li * ci == 0) by (nonlinear_arith)
                        requires
                            li == 0,
                    ;
                }
                if ci == 0 {
                    assert(li * ci == 0) by (nonlinear_arith)
                        requires
                            ci == 0,
                    ;
                }
            }
            lemma_mul_sign(li, ci);
            assert(tdiv(li * ci, si) == if neg {
                -(q as int)
            } else {
                q as int
            });
        } else {
            assert(tdiv(li * ci, si) == 0);
        }
    }
    if neg {
        if q >= 0x8000_0000 {
            i32::MIN
        } else {
            let m: i64 = q as i64;
            (-m) as i32
        }
    } else {
        if q > 0x7FFF_FFFF {
            i32::MAX
        } else {
            q as i32
        }
    }
}

/// The composite of one pixel at 32-bit signed encoding.
fn mix_pixel_i32(l: Option<i32>, r: Option<i32>, g: Option<i32>, b: Option<i32>) -> (t: (
    i32,
    i32,
    i32,
))
    ensures
        (t.0 as int, t.1 as int, t.2 as int) == pixel_i32(l, r, g, b),
{
    match (l, r, g, b) {
        (Some(lv), Some(rv), Some(gv), Some(bv)) => {
            let sum: i64 = rv as i64 + gv as i64 + bv as i64;
            if sum == 0 {
                (0, 0, 0)
            } else {
                (share_i32(lv, rv, sum), share_i32(lv, gv, sum), share_i32(lv, bv, sum))
            }
        },
        _ => (0, 0, 0),
    }
}

/// The composite of one pixel at 32-bit unsigned encoding.
fn mix_pixel_u32(l: Option<u32>, r: Option<u32>, g: Option<u32>, b: Option<u32>) -> (t: (
    u32,
    u32,
    u32,
))
    ensures
        (t.0 as int, t.1 as int, t.2 as int) == pixel_u32(l, r, g, b),
{
    match (l, r, g, b) {
        (Some(lv), Some(rv), Some(gv), Some(bv)) => {
            let sum: u64 = rv as u64 + gv as u64 + bv as u64;
            if sum == 0 {
                (0, 0, 0)
            } else {
                (share_u32(lv, rv, sum), share_u32(lv, gv, sum), share_u32(lv, bv, sum))
            }
        },
        _ => (0, 0, 0),
    }
}

/// Lays per-pixel channel triples out as three contiguous planar blocks:
/// all first components, then all second, then all third.
pub fn planar_from_triples<T: Copy>(triples: &Vec<(T, T, T)>) -> (out: Vec<T>)
    requires
        3 * triples@.len() <= usize::MAX,
    ensures
        out@.len() == 3 * triples@.len(),
        forall|i: int| 0 <= i < triples@.len() ==> out@[i] == (#[trigger] triples@[i]).0,
        forall|i: int|
            0 <= i < triples@.len() ==> out@[i + triples@.len()] == (#[trigger] triples@[i]).1,
        forall|i: int|
            0 <= i < triples@.len() ==> out@[i + 2 * triples@.len()] == (
            #[trigger] triples@[i]).2,
{
    let n = triples.len();
    let mut out: Vec<T> = Vec::new();
    let mut i: usize = 0;
    while i < n
        invariant
            n == triples@.len(),
            3 * n <= usize::MAX,
            i <= n,
            out@.len() == i,
            forall|k: int| 0 <= k < i ==> out@[k] == (#[trigger] triples@[k]).0,
        decreases n - i,
    {
        out.push(triples[i].0);
        i = i + 1;
    }
    let mut j: usize = 0;
    while j < n
        invariant
            n == triples@.len(),
            3 * n <= usize::MAX,
            j <= n,
            out@.len() == n + j,
            forall|k: int| 0 <= k < n ==> out@[k] == (#[trigger] triples@[k]).0,
            forall|k: int| 0 <= k < j ==> out@[n + k] == (#[trigger] triples@[k]).1,
        decreases n - j,
    {
        out.push(triples[j].1);
        j = j + 1;
    }
    let mut m: usize = 0;
    while m < n
        invariant
            n == triples@.len(),
            3 * n <= usize::MAX,
            m <= n,
            out@.len() == 2 * n + m,
            forall|k: int| 0 <= k < n ==> out@[k] == (#[trigger] triples@[k]).0,
            forall|k: int| 0 <= k < n ==> out@[n + k] == (#[trigger] triples@[k]).1,
            forall|k: int| 0 <= k < m ==> out@[2 * n + k] == (#[trigger] triples@[k]).2,
        decreases n - m,
    {
        out.push(triples[m].2);
        m = m + 1;
    }
    proof {
        assert forall|i0: int| 0 <= i0 < triples@.len() implies out@[i0 + triples@.len()] == (
        #[trigger] triples@[i0]).1 by {
            assert(out@[n + i0] == triples@[i0].1);
        }
        assert forall|i0: int| 0 <= i0 < triples@.len() implies out@[i0 + 2 * triples@.len()] == (
        #[trigger] triples@[i0]).2 by {
            assert(out@[2 * n + i0] == triples@[i0].2);
        }
    }
    out
}

/// Composes four same-length nullable 32-bit signed planes into one
/// planar color buffer of three blocks of `width * height` samples.
pub fn compose_i32(
    width: usize,
    height: usize,
    l: &Vec<Option<i32>>,
    r: &Vec<Option<i32>>,
    g: &Vec<Option<i32>>,
    b: &Vec<Option<i32>>,
) -> (out: Vec<i32>)
    requires
        l@.len() == width * height,
        r@.len() == width * height,
        g@.len() == width * height,
        b@.len() == width * height,
        3 * (width * height) <= usize::MAX,
    ensures
        composed_i32(out@, l@, r@, g@, b@, (width * height) as int),
{
    let total: usize = l.len();
    let mut triples: Vec<(i32, i32, i32)> = Vec::new();
    let mut i: usize = 0;
    while i < total
        invariant
            total == width * height,
            l@.len() == total,
            r@.len() == total,
            g@.len() == total,
            b@.len() == total,
            3 * (width * height) <= usize::MAX,
            i <= total,
            triples@.len() == i,
            forall|k: int|
                0 <= k < i ==> (
                (#[trigger] triples@[k]).0 as int,
                triples@[k].1 as int,
                triples@[k].2 as int,
                ) == pixel_i32(l@[k], r@[k], g@[k], b@[k]),
        decreases total - i,
    {
        let t = mix_pixel_i32(l[i], r[i], g[i], b[i]);
        triples.push(t);
        i = i + 1;
    }
    let out = planar_from_triples(&triples);
    proof {
        let totali = total as int;
        let mo = seq_i32(out@);
        let ml = seq_opt_i32(l@);
        let mr = seq_opt_i32(r@);
        let mg = seq_opt_i32(g@);
        let mb = seq_opt_i32(b@);
        assert forall|k: int| 0 <= k < totali implies #[trigger] pixel_ok(
            mo,
            ml,
            mr,
            mg,
            mb,
            totali,
            -0x8000_0000,
            0x7FFF_FFFF,
            k,
        ) by {
            assert(out@[k] == triples@[k].0);
            assert(out@[k + totali] == triples@[k].1);
            assert(out@[k + 2 * totali] == triples@[k].2);
            assert(mo[k] == out@[k] as int);
            assert(mo[k + totali] == out@[k + totali] as int);
            assert(mo[k + 2 * totali] == out@[k + 2 * totali] as int);
        }
    }
    out
}

/// Composes four same-length nullable 32-bit unsigned planes into one
/// planar color buffer of three blocks of `width * height` samples.
pub fn compose_u32(
    width: usize,
    height: usize,
    l: &Vec<Option<u32>>,
    r: &Vec<Option<u32>>,
    g: &Vec<Option<u32>>,
    b: &Vec<Option<u32>>,
) -> (out: Vec<u32>)
    requires
        l@.len() == width * height,
        r@.len() == width * height,
        g@.len() == width * height,
        b@.len() == width * height,
        3 * (width * height) <= usize::MAX,
    ensures
        composed_u32(out@, l@, r@, g@, b@, (width * height) as int),
{
    let total: usize = l.len();
    let mut triples: Vec<(u32, u32, u32)> = Vec::new();
    let mut i: usize = 0;
    while i < total
        invariant
            total == width * height,
            l@.len() == total,
            r@.len() == total,
            g@.len() == total,
            b@.len() == total,
            3 * (width * height) <= usize::MAX,
            i <= total,
            triples@.len() == i,
            forall|k: int|
                0 <= k < i ==> (
                (#[trigger] triples@[k]).0 as int,
                triples@[k].1 as int,
                triples@[k].2 as int,
                ) == pixel_u32(l@[k], r@[k], g@[k], b@[k]),
        decreases total - i,
    {
        let t = mix_pixel_u32(l[i], r[i], g[i], b[i]);
        triples.push(t);
        i = i + 1;
    }
    let out = planar_from_triples(&triples);
    proof {
        let totali = total as int;
        let mo = seq_u32(out@);
        let ml = seq_opt_u32(l@);
        let mr = seq_opt_u32(r@);
        let mg = seq_opt_u32(g@);
        let mb = seq_opt_u32(b@);
        assert forall|k: int| 0 <= k < totali implies #[trigger] pixel_ok(
            mo,
            ml,
            mr,
            mg,
            mb,
            totali,
            0,
            0xFFFF_FFFF,
            k,
        ) by {
            assert(out@[k] == triples@[k].0);
            assert(out@[k + totali] == triples@[k].1);
            assert(out@[k + 2 * totali] == triples@[k].2);
            assert(mo[k] == out@[k] as int);
            assert(mo[k + totali] == out@[k + totali] as int);
            assert(mo[k + 2 * totali] == out@[k + 2 * totali] as int);
        }
    }
    out
}

/// All four planes carry one and the same numeric encoding.
pub open spec fn same_encoding(l: &ImagePlane, r: &ImagePlane, g: &ImagePlane, b: &ImagePlane) -> bool {
    &&& r.data.spec_encoding() == l.data.spec_encoding()
    &&& g.data.spec_encoding() == l.data.spec_encoding()
    &&& b.data.spec_encoding() == l.data.spec_encoding()
}

/// The four planes agree in encoding and in pixel count, and the
/// luminance plane's buffer covers exactly its first two shape extents.
pub open spec fn planes_conformant(
    l: &ImagePlane,
    r: &ImagePlane,
    g: &ImagePlane,
    b: &ImagePlane,
) -> bool {
    &&& same_encoding(l, r, g, b)
    &&& l.wf()
    &&& r.data.spec_len() == l.data.spec_len()
    &&& g.data.spec_len() == l.data.spec_len()
    &&& b.data.spec_len() == l.data.spec_len()
}

proof fn lemma_mul_div_bound(w: int, h: int, m: int)
    requires
        0 <= w,
        0 < h,
        0 <= m,
    ensures
        w <= m / h ==> w * h <= m,
        w > m / h ==> w * h > m,
{
    vstd::arithmetic::div_mod::lemma_fundamental_div_mod(m, h);
    vstd::arithmetic::div_mod::lemma_mod_division_less_than_divisor(m, h);
    let qd = m / h;
    vstd::arithmetic::mul::lemma_mul_is_commutative(qd, h);
    if w <= qd {
        vstd::arithmetic::mul::lemma_mul_inequality(w, qd, h);
    } else {
        vstd::arithmetic::mul::lemma_mul_inequality(qd + 1, w, h);
        assert((qd + 1) * h == qd * h + h) by (nonlinear_arith);
    }
}

/// Validates that four planes can be composed: identical numeric
/// encoding, and identical pixel count equal to the luminance plane's
/// `width * height`. Returns those two extents on success. An encoding
/// disagreement is reported as `EncodingMismatch`; planes that agree in
/// encoding but not in pixel count (or a malformed luminance shape) as
/// `ShapeMismatch`.
pub fn check_planes(l: &ImagePlane, r: &ImagePlane, g: &ImagePlane, b: &ImagePlane) -> (res:
    Result<(usize, usize), Error>)
    ensures
        res is Ok <==> planes_conformant(l, r, g, b),
        res matches Ok(wh) ==> wh.0 == l.shape@[0] && wh.1 == l.shape@[1],
        res matches Err(e) ==> (e == Error::EncodingMismatch <==> !same_encoding(l, r, g, b)),
        res matches Err(e) ==> e == Error::EncodingMismatch || e == Error::ShapeMismatch,
{
    let le = l.data.encoding();
    if r.data.encoding() != le || g.data.encoding() != le || b.data.encoding() != le {
        return Err(Error::EncodingMismatch);
    }
    if l.shape.len() < 2 {
        return Err(Error::ShapeMismatch);
    }
    let w = l.shape[0];
    let h = l.shape[1];
    let n = l.data.len();
    if h != 0 && w > usize::MAX / h {
        proof {
            lemma_mul_div_bound(w as int, h as int, usize::MAX as int);
        }
        return Err(Error::ShapeMismatch);
    }
    proof {
        if h != 0 {
            lemma_mul_div_bound(w as int, h as int, usize::MAX as int);
        } else {
            assert((w as int) * (h as int) == 0) by (nonlinear_arith)
                requires
                    h as int == 0,
            ;
        }
    }
    let wh = w * h;
    if n != wh || r.data.len() != n || g.data.len() != n || b.data.len() != n {
        return Err(Error::ShapeMismatch);
    }
    Ok((w, h))
}

/// Law: a pixel with a missing sample on any of the four inputs composes
/// to black in all three channels.
pub proof fn lemma_missing_is_black(
    l: Option<int>,
    r: Option<int>,
    g: Option<int>,
    b: Option<int>,
    lo: int,
    hi: int,
)
    requires
        l is None || r is None || g is None || b is None,
    ensures
        pixel_rgb(l, r, g, b, lo, hi) == (0int, 0int, 0int),
{
}

/// Law: a pixel whose chrominance samples sum to zero composes to black
/// in all three channels.
pub proof fn lemma_zero_sum_is_black(
    l: Option<int>,
    r: Option<int>,
    g: Option<int>,
    b: Option<int>,
    lo: int,
    hi: int,
)
    requires
        r is Some && g is Some && b is Some,
        r->0 + g->0 + b->0 == 0,
    ensures
        pixel_rgb(l, r, g, b, lo, hi) == (0int, 0int, 0int),
{
}

/// Law: in a composed output, a pixel whose chrominance sum is zero is
/// black in all three planar blocks.
pub proof fn lemma_composed_zero_sum_black(
    out: Seq<int>,
    l: Seq<Option<int>>,
    r: Seq<Option<int>>,
    g: Seq<Option<int>>,
    b: Seq<Option<int>>,
    total: int,
    lo: int,
    hi: int,
    i: int,
)
    requires
        composed(out, l, r, g, b, total, lo, hi),
        0 <= i < total,
        r[i] is Some && g[i] is Some && b[i] is Some,
        r[i]->0 + g[i]->0 + b[i]->0 == 0,
    ensures
        out[i] == 0 && out[i + total] == 0 && out[i + 2 * total] == 0,
{
    assert(pixel_ok(out, l, r, g, b, total, lo, hi, i));
    lemma_zero_sum_is_black(l[i], r[i], g[i], b[i], lo, hi);
}

/// Law: in a composed output, a pixel with a missing sample on any input
/// is black in all three planar blocks.
pub proof fn lemma_composed_missing_black(
    out: Seq<int>,
    l: Seq<Option<int>>,
    r: Seq<Option<int>>,
    g: Seq<Option<int>>,
    b: Seq<Option<int>>,
    total: int,
    lo: int,
    hi: int,
    i: int,
)
    requires
        composed(out, l, r, g, b, total, lo, hi),
        0 <= i < total,
        l[i] is None || r[i] is None || g[i] is None || b[i] is None,
    ensures
        out[i] == 0 && out[i + total] == 0 && out[i + 2 * total] == 0,
{
    assert(pixel_ok(out, l, r, g, b, total, lo, hi, i));
    lemma_missing_is_black(l[i], r[i], g[i], b[i], lo, hi);
}

/// Law: composing is a pure function of its four inputs — any two outputs
/// composed from the same four planes are equal.
pub proof fn lemma_composed_deterministic(
    out1: Seq<int>,
    out2: Seq<int>,
    l: Seq<Option<int>>,
    r: Seq<Option<int>>,
    g: Seq<Option<int>>,
    b: Seq<Option<int>>,
    total: int,
    lo: int,
    hi: int,
)
    requires
        0 <= total,
        composed(out1, l, r, g, b, total, lo, hi),
        composed(out2, l, r, g, b, total, lo, hi),
    ensures
        out1 == out2,
{
    assert forall|j: int| 0 <= j < out1.len() implies out1[j] == out2[j] by {
        if j < total {
            assert(pixel_ok(out1, l, r, g, b, total, lo, hi, j));
            assert(pixel_ok(out2, l, r, g, b, total, lo, hi, j));
        } else if j < 2 * total {
            let i = j - total;
            assert(pixel_ok(out1, l, r, g, b, total, lo, hi, i));
            assert(pixel_ok(out2, l, r, g, b, total, lo, hi, i));
        } else {
            let i = j - 2 * total;
            assert(pixel_ok(out1, l, r, g, b, total, lo, hi, i));
            assert(pixel_ok(out2, l, r, g, b, total, lo, hi, i));
        }
    }
    assert(out1 =~= out2);
}

/// Law: at 32-bit signed encoding, a pixel whose chrominance samples sum
/// to zero, or with a missing sample on any input, is black in all three
/// planar blocks of the composed output.
pub proof fn lemma_compose_i32_degenerate_black(
    out: Seq<i32>,
    l: Seq<Option<i32>>,
    r: Seq<Option<i32>>,
    g: Seq<Option<i32>>,
    b: Seq<Option<i32>>,
    total: int,
    i: int,
)
    requires
        composed_i32(out, l, r, g, b, total),
        l.len() == total && r.len() == total && g.len() == total && b.len() == total,
        0 <= i < total,
        (l[i] is None || r[i] is None || g[i] is None || b[i] is None) || (r[i] is Some && g[i] is Some
            && b[i] is Some && r[i]->0 + g[i]->0 + b[i]->0 == 0),
    ensures
        out[i] == 0i32 && out[i + total] == 0i32 && out[i + 2 * total] == 0i32,
{
    let lo = -0x8000_0000;
    let hi = 0x7FFF_FFFF;
    assert(seq_opt_i32(l)[i] == opt_i32(l[i]));
    assert(seq_opt_i32(r)[i] == opt_i32(r[i]));
    assert(seq_opt_i32(g)[i] == opt_i32(g[i]));
    assert(seq_opt_i32(b)[i] == opt_i32(b[i]));
    if l[i] is None || r[i] is None || g[i] is None || b[i] is None {
        lemma_composed_missing_black(
            seq_i32(out),
            seq_opt_i32(l),
            seq_opt_i32(r),
            seq_opt_i32(g),
            seq_opt_i32(b),
            total,
            lo,
            hi,
            i,
        );
    } else {
        lemma_composed_zero_sum_black(
            seq_i32(out),
            seq_opt_i32(l),
            seq_opt_i32(r),
            seq_opt_i32(g),
            seq_opt_i32(b),
            total,
            lo,
            hi,
            i,
        );
    }
    assert(seq_i32(out)[i] == 0);
    assert(seq_i32(out)[i + total] == 0);
    assert(seq_i32(out)[i + 2 * total] == 0);
}

/// Law: at 32-bit unsigned encoding, a pixel whose chrominance samples sum
/// to zero, or with a missing sample on any input, is black in all three
/// planar blocks of the composed output.
pub proof fn lemma_compose_u32_degenerate_black(
    out: Seq<u32>,
    l: Seq<Option<u32>>,
    r: Seq<Option<u32>>,
    g: Seq<Option<u32>>,
    b: Seq<Option<u32>>,
    total: int,
    i: int,
)
    requires
        composed_u32(out, l, r, g, b, total),
        l.len() == total && r.len() == total && g.len() == total && b.len() == total,
        0 <= i < total,
        (l[i] is None || r[i] is None || g[i] is None || b[i] is None) || (r[i] is Some && g[i] is Some
            && b[i] is Some && r[i]->0 + g[i]->0 + b[i]->0 == 0),
    ensures
        out[i] == 0u32 && out[i + total] == 0u32 && out[i + 2 * total] == 0u32,
{
    assert(seq_opt_u32(l)[i] == opt_u32(l[i]));
    assert(seq_opt_u32(r)[i] == opt_u32(r[i]));
    assert(seq_opt_u32(g)[i] == opt_u32(g[i]));
    assert(seq_opt_u32(b)[i] == opt_u32(b[i]));
    if l[i] is None || r[i] is None || g[i] is None || b[i] is None {
        lemma_composed_missing_black(
            seq_u32(out),
            seq_opt_u32(l),
            seq_opt_u32(r),
            seq_opt_u32(g),
            seq_opt_u32(b),
            total,
            0,
            0xFFFF_FFFF,
            i,
        );
    } else {
        lemma_composed_zero_sum_black(
            seq_u32(out),
            seq_opt_u32(l),
            seq_opt_u32(r),
            seq_opt_u32(g),
            seq_opt_u32(b),
            total,
            0,
            0xFFFF_FFFF,
            i,
        );
    }
    assert(seq_u32(out)[i] == 0);
    assert(seq_u32(out)[i + total] == 0);
    assert(seq_u32(out)[i + 2 * total] == 0);
}

/// Law: at 32-bit signed encoding, any two outputs composed from the same
/// four planes are identical, sample for sample.
pub proof fn lemma_compose_i32_deterministic(
    out1: Seq<i32>,
    out2: Seq<i32>,
    l: Seq<Option<i32>>,
    r: Seq<Option<i32>>,
    g: Seq<Option<i32>>,
    b: Seq<Option<i32>>,
    total: int,
)
    requires
        0 <= total,
        composed_i32(out1, l, r, g, b, total),
        composed_i32(out2, l, r, g, b, total),
    ensures
        out1 == out2,
{
    lemma_composed_deterministic(
        seq_i32(out1),
        seq_i32(out2),
        seq_opt_i32(l),
        seq_opt_i32(r),
        seq_opt_i32(g),
        seq_opt_i32(b),
        total,
        -0x8000_0000,
        0x7FFF_FFFF,
    );
    assert forall|j: int| 0 <= j < out1.len() implies out1[j] == out2[j] by {
        assert(seq_i32(out1)[j] == seq_i32(out2)[j]);
    }
    assert(out1 =~= out2);
}

/// Law: at 32-bit unsigned encoding, any two outputs composed from the
/// same four planes are identical, sample for sample.
pub proof fn lemma_compose_u32_deterministic(
    out1: Seq<u32>,
    out2: Seq<u32>,
    l: Seq<Option<u32>>,
    r: Seq<Option<u32>>,
    g: Seq<Option<u32>>,
    b: Seq<Option<u32>>,
    total: int,
)
    requires
        0 <= total,
        composed_u32(out1, l, r, g, b, total),
        composed_u32(out2, l, r, g, b, total),
    ensures
        out1 == out2,
{
    lemma_composed_deterministic(
        seq_u32(out1),
        seq_u32(out2),
        seq_opt_u32(l),
        seq_opt_u32(r),
        seq_opt_u32(g),
        seq_opt_u32(b),
        total,
        0,
        0xFFFF_FFFF,
    );
    assert forall|j: int| 0 <= j < out1.len() implies out1[j] == out2[j] by {
        assert(seq_u32(out1)[j] == seq_u32(out2)[j]);
    }
    assert(out1 =~= out2);
}

} // verus!
