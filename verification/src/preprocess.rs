//! Image preprocessing for OCR: white-text extraction, BT.601 grey levels
//! and Otsu binarisation.
//!
//! Otsu's threshold is computed exactly: the between-class variance of a
//! split at level `i` is `N(i)^2 / D(i)` with
//! `N(i) = mass_b * n - mass * w_b` and `D(i) = w_b * (n - w_b)`, where
//! `w_b` and `mass_b` are the number and the summed levels of the pixels
//! at or below `i`, `n` the number of pixels and `mass` their summed
//! levels.  Variances are compared as exact fractions.
use vstd::prelude::*;

verus! {

// ---------------------------------------------------------------------------
// Histogram
// ---------------------------------------------------------------------------

/// Number of pixels of `g` at level `k`.
pub open spec fn level_count(g: Seq<u8>, k: int) -> int
    decreases g.len(),
{
    if g.len() == 0 {
        0
    } else {
        level_count(g.drop_last(), k) + if g.last() as int == k { 1int } else { 0int }
    }
}

/// Number of pixels of `g` at a level below `m`.
pub open spec fn weight_below(g: Seq<u8>, m: int) -> int
    decreases m,
{
    if m <= 0 {
        0
    } else {
        weight_below(g, m - 1) + level_count(g, m - 1)
    }
}

/// Summed levels of the pixels of `g` at a level below `m`.
pub open spec fn mass_below(g: Seq<u8>, m: int) -> int
    decreases m,
{
    if m <= 0 {
        0
    } else {
        mass_below(g, m - 1) + (m - 1) * level_count(g, m - 1)
    }
}

/// Numerator of the between-class variance of the split after level `i`.
pub open spec fn split_num(g: Seq<u8>, i: int) -> int {
    mass_below(g, i + 1) * g.len() - mass_below(g, 256) * weight_below(g, i + 1)
}

/// Denominator of the between-class variance of the split after level `i`.
pub open spec fn split_den(g: Seq<u8>, i: int) -> int {
    weight_below(g, i + 1) * (g.len() - weight_below(g, i + 1))
}

/// Otsu's scan over the levels below `m`: the level of the split with the
/// greatest between-class variance so far (the first among equals, 0 when
/// none is positive), with that variance as numerator and denominator
/// `(level, num, den)`, variance `num^2 / den`.  Splits with an empty side
/// are skipped.
pub open spec fn otsu_scan(g: Seq<u8>, m: int) -> (int, int, int)
    decreases m,
{
    if m <= 0 {
        (0, 0, 1)
    } else {
        let prev = otsu_scan(g, m - 1);
        let i = m - 1;
        let w = weight_below(g, m);
        let nu = split_num(g, i);
        let de = split_den(g, i);
        if 0 < w < g.len() && nu * nu * prev.2 > prev.1 * prev.1 * de {
            (i, nu, de)
        } else {
            prev
        }
    }
}

/// Otsu's threshold of the grey levels `g`.
pub open spec fn otsu_spec(g: Seq<u8>) -> int {
    otsu_scan(g, 256).0
}

proof fn lemma_level_count_nonneg(g: Seq<u8>, k: int)
    ensures
        0 <= level_count(g, k) <= g.len(),
    decreases g.len(),
{
    if g.len() > 0 {
        lemma_level_count_nonneg(g.drop_last(), k);
    }
}

/// Weights and masses grow with the level, and the mass between two levels
/// is at most 255 per pixel.
proof fn lemma_between(g: Seq<u8>, m1: int, m2: int)
    requires
        0 <= m1 <= m2 <= 256,
    ensures
        weight_below(g, m1) <= weight_below(g, m2),
        0 <= mass_below(g, m2) - mass_below(g, m1) <= 255 * (weight_below(g, m2) - weight_below(g, m1)),
    decreases m2 - m1,
{
    if m1 < m2 {
        lemma_between(g, m1, m2 - 1);
        let c = level_count(g, m2 - 1);
        lemma_level_count_nonneg(g, m2 - 1);
        assert(0 <= (m2 - 1) * c <= 255 * c) by (nonlinear_arith)
            requires
                0 <= m2 - 1 <= 255,
                0 <= c,
        ;
    }
}

proof fn lemma_below_nonneg(g: Seq<u8>, m: int)
    requires
        0 <= m <= 256,
    ensures
        0 <= weight_below(g, m),
        0 <= mass_below(g, m),
    decreases m,
{
    if m > 0 {
        lemma_below_nonneg(g, m - 1);
        lemma_level_count_nonneg(g, m - 1);
        assert(0 <= (m - 1) * level_count(g, m - 1)) by (nonlinear_arith)
            requires
                0 <= m - 1,
                0 <= level_count(g, m - 1),
        ;
    }
}

/// Adding a pixel at level `v` adds one to the weight below every level
/// above `v`.
proof fn lemma_weight_push(g: Seq<u8>, m: int)
    requires
        g.len() > 0,
        0 <= m,
    ensures
        weight_below(g, m) == weight_below(g.drop_last(), m) + if (g.last() as int) < m { 1int } else { 0int },
    decreases m,
{
    if m > 0 {
        lemma_weight_push(g, m - 1);
    }
}

/// Every pixel has a level below 256.
proof fn lemma_weight_total(g: Seq<u8>)
    ensures
        weight_below(g, 256) == g.len(),
    decreases g.len(),
{
    if g.len() > 0 {
        lemma_weight_total(g.drop_last());
        lemma_weight_push(g, 256);
    } else {
        lemma_weight_empty(g, 256);
    }
}

proof fn lemma_weight_empty(g: Seq<u8>, m: int)
    requires
        g.len() == 0,
    ensures
        weight_below(g, m) == 0,
    decreases m,
{
    if m > 0 {
        lemma_weight_empty(g, m - 1);
    }
}

// ---------------------------------------------------------------------------
// Exact comparison of variances
// ---------------------------------------------------------------------------

/// `x^2 = Q D + R` with `Q = a x + a b + q`, `x = a D + b`, `b^2 = q D + R`.
proof fn lemma_square_split(x: int, d: int)
    requires
        x >= 0,
        d > 0,
    ensures
        x * x == ((x / d) * x + (x / d) * (x % d) + ((x % d) * (x % d)) / d) * d + ((x % d) * (x % d)) % d,
        0 <= ((x % d) * (x % d)) % d < d,
{
    let a = x / d;
    let b = x % d;
    let q = (b * b) / d;
    let r = (b * b) % d;
    assert(x == a * d + b) by (nonlinear_arith)
        requires
            a == x / d,
            b == x % d,
            d > 0,
    ;
    assert(b * b == q * d + r) by (nonlinear_arith)
        requires
            q == (b * b) / d,
            r == (b * b) % d,
            d > 0,
    ;
    assert(x * x == (a * x + a * b + q) * d + r) by (nonlinear_arith)
        requires
            x == a * d + b,
            b * b == q * d + r,
    ;
    assert(0 <= r < d) by (nonlinear_arith)
        requires
            r == (b * b) % d,
            d > 0,
    ;
}

/// Comparing `(Q1 D1 + R1) / D1` with `(Q2 D2 + R2) / D2` for remainders
/// below their denominators: by the quotients, then by the remainders.
proof fn lemma_fraction_order(q1: int, r1: int, d1: int, q2: int, r2: int, d2: int)
    requires
        d1 > 0,
        d2 > 0,
        0 <= r1 < d1,
        0 <= r2 < d2,
    ensures
        ((q1 * d1 + r1) * d2 > (q2 * d2 + r2) * d1) == (q1 > q2 || (q1 == q2 && r1 * d2 > r2 * d1)),
{
    if q1 > q2 {
        assert((q1 * d1 + r1) * d2 > (q2 * d2 + r2) * d1) by (nonlinear_arith)
            requires
                q1 >= q2 + 1,
                d1 > 0,
                d2 > 0,
                0 <= r1,
                r2 < d2,
        ;
    } else if q1 < q2 {
        assert((q1 * d1 + r1) * d2 < (q2 * d2 + r2) * d1) by (nonlinear_arith)
            requires
                q2 >= q1 + 1,
                d1 > 0,
                d2 > 0,
                0 <= r2,
                r1 < d1,
        ;
    } else {
        assert((q1 * d1 + r1) * d2 - (q2 * d2 + r2) * d1 == r1 * d2 - r2 * d1) by (nonlinear_arith)
            requires
                q1 == q2,
        ;
    }
}


// ---------------------------------------------------------------------------
// Otsu's threshold maximises the variance
// ---------------------------------------------------------------------------

/// `a / b <= c / d` and `c / d < e / f` give `a / b <= e / f`.
proof fn lemma_fraction_chain(a: int, b: int, c: int, d: int, e: int, f: int)
    requires
        b > 0,
        d > 0,
        f > 0,
        a * d <= c * b,
        c * f < e * d,
    ensures
        a * f <= e * b,
{
    assert(a * d * f <= c * b * f) by (nonlinear_arith)
        requires
            a * d <= c * b,
            f > 0,
    ;
    assert(c * f * b < e * d * b) by (nonlinear_arith)
        requires
            c * f < e * d,
            b > 0,
    ;
    assert(a * f * d < e * b * d) by (nonlinear_arith)
        requires
            a * d * f <= c * b * f,
            c * f * b < e * d * b,
    ;
    assert(a * f <= e * b) by (nonlinear_arith)
        requires
            a * f * d < e * b * d,
            d > 0,
    ;
}

proof fn lemma_den_positive(g: Seq<u8>, i: int)
    requires
        0 < weight_below(g, i + 1) < g.len(),
    ensures
        split_den(g, i) > 0,
{
    let w = weight_below(g, i + 1);
    assert(w * (g.len() - w) > 0) by (nonlinear_arith)
        requires
            0 < w < g.len(),
    ;
}

/// The scan keeps a split of greatest variance so far.
proof fn lemma_scan_best(g: Seq<u8>, m: int)
    requires
        0 <= m <= 256,
    ensures
        otsu_scan(g, m).2 > 0,
        (otsu_scan(g, m).1 == 0 && otsu_scan(g, m).2 == 1 && otsu_scan(g, m).0 == 0) || ({
            let t = otsu_scan(g, m).0;
            &&& 0 <= t < m
            &&& 0 < weight_below(g, t + 1) < g.len()
            &&& otsu_scan(g, m).1 == split_num(g, t)
            &&& otsu_scan(g, m).2 == split_den(g, t)
        }),
        forall|j: int|
            0 <= j < m && 0 < weight_below(g, j + 1) < g.len() ==> #[trigger] split_num(g, j) * split_num(g, j)
                * otsu_scan(g, m).2 <= otsu_scan(g, m).1 * otsu_scan(g, m).1 * split_den(g, j),
    decreases m,
{
    if m > 0 {
        lemma_scan_best(g, m - 1);
        let prev = otsu_scan(g, m - 1);
        let i = m - 1;
        let w = weight_below(g, m);
        let nu = split_num(g, i);
        let de = split_den(g, i);
        if 0 < w < g.len() && nu * nu * prev.2 > prev.1 * prev.1 * de {
            lemma_den_positive(g, i);
            assert forall|j: int|
                0 <= j < m && 0 < weight_below(g, j + 1) < g.len() implies #[trigger] split_num(g, j) * split_num(
                    g,
                    j,
                ) * de <= nu * nu * split_den(g, j) by {
                if j < i {
                    lemma_den_positive(g, j);
                    lemma_fraction_chain(
                        split_num(g, j) * split_num(g, j),
                        split_den(g, j),
                        prev.1 * prev.1,
                        prev.2,
                        nu * nu,
                        de,
                    );
                }
            }
        }
    }
}

/// Otsu's threshold is a level of greatest between-class variance: for
/// every split with two non-empty sides, either the split at the threshold
/// also has two non-empty sides and at least its variance (variances
/// `split_num^2 / split_den`), or that split's variance is zero.
pub proof fn law_otsu_maximises_variance(g: Seq<u8>, i: int)
    requires
        0 <= i < 256,
        0 < weight_below(g, i + 1) < g.len(),
    ensures
        ({
            let t = otsu_spec(g);
            ||| 0 < weight_below(g, t + 1) < g.len() && split_num(g, i) * split_num(g, i) * split_den(g, t)
                <= split_num(g, t) * split_num(g, t) * split_den(g, i)
            ||| split_num(g, i) == 0
        }),
{
    lemma_scan_best(g, 256);
    assert(split_num(g, i) * split_num(g, i) * otsu_scan(g, 256).2 <= otsu_scan(g, 256).1 * otsu_scan(g, 256).1
        * split_den(g, i));
    if otsu_scan(g, 256).1 == 0 && otsu_scan(g, 256).2 == 1 {
        let x = split_num(g, i);
        let b = otsu_scan(g, 256).1;
        let d = split_den(g, i);
        assert(b * b * d == 0) by (nonlinear_arith)
            requires
                b == 0,
        ;
        assert(x * x * 1 <= 0);
        assert(x == 0) by (nonlinear_arith)
            requires
                x * x * 1 <= 0,
        ;
    }
}

// ---------------------------------------------------------------------------
// Otsu's threshold
// ---------------------------------------------------------------------------

fn histogram(gray: &[u8]) -> (hist: Vec<u64>)
    requires
        gray@.len() <= u32::MAX,
    ensures
        hist@.len() == 256,
        forall|v: int| 0 <= v < 256 ==> hist@[v] == level_count(gray@, v),
{
    let mut hist: Vec<u64> = Vec::new();
    let mut k: usize = 0;
    while k < 256
        invariant
            k <= 256,
            hist@.len() == k,
            forall|v: int| 0 <= v < k ==> hist@[v] == 0,
        decreases 256 - k,
    {
        hist.push(0);
        k = k + 1;
    }
    proof {
        assert(gray@.take(0) =~= Seq::<u8>::empty());
    }
    let mut j: usize = 0;
    while j < gray.len()
        invariant
            j <= gray@.len() <= u32::MAX,
            hist@.len() == 256,
            forall|v: int| 0 <= v < 256 ==> hist@[v] == level_count(gray@.take(j as int), v),
        decreases gray@.len() - j,
    {
        let p = gray[j] as usize;
        proof {
            lemma_level_count_nonneg(gray@.take(j as int), p as int);
            assert(gray@.take(j + 1).drop_last() =~= gray@.take(j as int));
            assert(gray@.take(j + 1).last() == gray@[j as int]);
        }
        let c = hist[p];
        hist.set(p, c + 1);
        j = j + 1;
    }
    proof {
        assert(gray@.take(j as int) =~= gray@);
    }
    hist
}

/// The between-class variance of a split as `(Q, R, D)` with
/// `N^2 = Q D + R`, `0 <= R < D`, where `N = mass_b * n - total * w_b` and
/// `D = w_b * (n - w_b)`.
fn variance_parts(mass_b: u64, total: u64, w_b: u64, n: u64) -> (r: (u128, u128, u128))
    requires
        0 < w_b < n <= u32::MAX,
        0 <= mass_b <= 255 * w_b,
        0 <= total - mass_b <= 255 * (n - w_b),
    ensures
        r.2 == w_b as int * (n - w_b) as int,
        r.0 as int * r.2 as int + r.1 as int == (mass_b as int * n as int - total as int * w_b as int) * (
        mass_b as int * n as int - total as int * w_b as int),
        r.1 < r.2,
        0 < r.2 <= u64::MAX,
{
    let w_f: u64 = n - w_b;
    proof {
        assert(0 <= mass_b as int * n as int <= 255 * 0x1_0000_0000 * 0x1_0000_0000) by (nonlinear_arith)
            requires
                0 <= mass_b <= 255 * w_b,
                w_b <= n,
                n <= u32::MAX,
        ;
        assert(0 <= total as int * w_b as int <= 255 * 0x1_0000_0000 * 0x1_0000_0000) by (nonlinear_arith)
            requires
                0 <= total <= 255 * n,
                0 <= w_b <= n,
                n <= u32::MAX,
        ;
        assert(0 < w_b as int * w_f as int <= u64::MAX) by (nonlinear_arith)
            requires
                0 < w_b <= u32::MAX,
                0 < w_f <= u32::MAX,
        ;
    }
    let num: i128 = mass_b as i128 * n as i128 - total as i128 * w_b as i128;
    let den: u128 = w_b as u128 * w_f as u128;
    proof {
        assert(-255 * (den as int) <= num <= 255 * (den as int)) by (nonlinear_arith)
            requires
                num == mass_b as int * n as int - total as int * w_b as int,
                den == w_b as int * w_f as int,
                n == w_b + w_f,
                0 <= mass_b <= 255 * w_b,
                0 <= total - mass_b <= 255 * w_f,
        ;
    }
    let x: u128 = if num < 0 { (-num) as u128 } else { num as u128 };
    proof {
        assert(x as int <= 255 * den as int);
        assert(x as int * x as int == num as int * num as int) by (nonlinear_arith)
            requires
                x as int == (if num < 0 { -(num as int) } else { num as int }),
        ;
    }
    let a: u128 = x / den;
    let b: u128 = x % den;
    proof {
        assert(a <= 255) by (nonlinear_arith)
            requires
                a == x / den,
                x <= 255 * den,
                den > 0,
        ;
        assert(b < den) by (nonlinear_arith)
            requires
                b == x % den,
                den > 0,
        ;
        assert(b * b <= u64::MAX as int * u64::MAX as int) by (nonlinear_arith)
            requires
                0 <= b <= u64::MAX,
        ;
        assert(a * x <= 255 * 255 * u64::MAX as int) by (nonlinear_arith)
            requires
                0 <= a <= 255,
                0 <= x <= 255 * den,
                den <= u64::MAX,
        ;
        assert(a * b <= 255 * u64::MAX as int) by (nonlinear_arith)
            requires
                0 <= a <= 255,
                0 <= b <= u64::MAX,
        ;
    }
    let bb: u128 = b * b;
    let q: u128 = bb / den;
    let r: u128 = bb % den;
    proof {
        assert(b * b <= b * den) by (nonlinear_arith)
            requires
                0 <= b < den,
        ;
        assert(q <= b) by (nonlinear_arith)
            requires
                q == bb / den,
                bb == b * b,
                b * b <= b * den,
                den > 0,
                b >= 0,
        ;
    }
    let big_q: u128 = a * x + a * b + q;
    proof {
        lemma_square_split(x as int, den as int);
    }
    (big_q, r, den)
}

/// Otsu's threshold of the grey levels `gray`: the level whose split
/// maximises the between-class variance (the first among equals; 0 when
/// no split has two non-empty sides and a positive variance).
pub fn otsu_threshold(gray: &[u8]) -> (t: u8)
    requires
        gray@.len() <= u32::MAX,
    ensures
        t as int == otsu_spec(gray@),
{
    let ghost g = gray@;
    let n: u64 = gray.len() as u64;
    let hist = histogram(gray);
    proof {
        lemma_weight_total(g);
    }
    let mut total: u64 = 0;
    let mut i: usize = 0;
    while i < 256
        invariant
            i <= 256,
            hist@.len() == 256,
            forall|v: int| 0 <= v < 256 ==> hist@[v] == level_count(g, v),
            weight_below(g, 256) == n,
            n == g.len() <= u32::MAX,
            total == mass_below(g, i as int),
        decreases 256 - i,
    {
        proof {
            lemma_between(g, 0, i + 1);
            lemma_between(g, i + 1, 256);
            lemma_below_nonneg(g, i + 1);
            lemma_level_count_nonneg(g, i as int);
            assert(mass_below(g, i + 1) <= 255 * n as int) by (nonlinear_arith)
                requires
                    mass_below(g, i + 1) <= 255 * weight_below(g, i + 1),
                    weight_below(g, i + 1) <= n,
            ;
            assert(i as int * hist@[i as int] <= 255 * n as int) by (nonlinear_arith)
                requires
                    0 <= i < 256,
                    0 <= hist@[i as int] <= n,
            ;
        }
        total = total + i as u64 * hist[i];
        i = i + 1;
    }
    let mut w_b: u64 = 0;
    let mut mass_b: u64 = 0;
    let mut t: u8 = 0;
    let mut bq: u128 = 0;
    let mut br: u128 = 0;
    let mut bd: u128 = 1;
    let ghost mut bn: int = 0;
    let mut i: usize = 0;
    while i < 256
        invariant
            i <= 256,
            hist@.len() == 256,
            forall|v: int| 0 <= v < 256 ==> hist@[v] == level_count(g, v),
            weight_below(g, 256) == n,
            n == g.len() <= u32::MAX,
            total == mass_below(g, 256),
            w_b == weight_below(g, i as int),
            mass_b == mass_below(g, i as int),
            otsu_scan(g, i as int) == (t as int, bn, bd as int),
            bq * bd + br == bn * bn,
            0 <= br < bd,
            0 < bd <= u64::MAX,
        decreases 256 - i,
    {
        proof {
            lemma_between(g, 0, i + 1);
            lemma_between(g, i + 1, 256);
            lemma_below_nonneg(g, i + 1);
            lemma_level_count_nonneg(g, i as int);
            assert(i as int * hist@[i as int] <= 255 * n as int) by (nonlinear_arith)
                requires
                    0 <= i < 256,
                    0 <= hist@[i as int] <= n,
            ;
            assert(mass_below(g, i + 1) <= 255 * n as int) by (nonlinear_arith)
                requires
                    mass_below(g, i + 1) <= 255 * weight_below(g, i + 1),
                    weight_below(g, i + 1) <= n,
            ;
        }
        w_b = w_b + hist[i];
        mass_b = mass_b + i as u64 * hist[i];
        if 0 < w_b && w_b < n {
            proof {
                assert(0 <= mass_b <= 255 * w_b);
                assert(0 <= total - mass_b <= 255 * (n - w_b));
            }
            let (big_q, r, den) = variance_parts(mass_b, total, w_b, n);
            let ghost num: int = mass_b as int * n as int - total as int * w_b as int;
            proof {
                assert(num == split_num(g, i as int));
                assert(den == split_den(g, i as int));
                lemma_fraction_order(big_q as int, r as int, den as int, bq as int, br as int, bd as int);
                assert(r as int * bd as int <= u64::MAX as int * u64::MAX as int) by (nonlinear_arith)
                    requires
                        0 <= r < den <= u64::MAX,
                        0 < bd <= u64::MAX,
                ;
                assert(br as int * den as int <= u64::MAX as int * u64::MAX as int) by (nonlinear_arith)
                    requires
                        0 <= br < bd <= u64::MAX,
                        0 < den <= u64::MAX,
                ;
                assert(num * num * bd == (big_q as int * den as int + r as int) * bd as int);
                assert(bn * bn * den == (bq as int * bd as int + br as int) * den as int);
            }
            if big_q > bq || (big_q == bq && r * bd > br * den) {
                t = i as u8;
                bq = big_q;
                br = r;
                bd = den;
                proof {
                    bn = num;
                }
            }
        }
        i = i + 1;
    }
    t
}


// ---------------------------------------------------------------------------
// Grey levels and binarisation
// ---------------------------------------------------------------------------

/// BT.601 luma of pixel `i` of a BGRA buffer, rounded down.
pub open spec fn luma_at(s: Seq<u8>, i: int) -> int {
    (114 * s[4 * i] + 587 * s[4 * i + 1] + 299 * s[4 * i + 2]) / 1000
}

/// Grey levels of the first `n` pixels of a BGRA buffer.
pub open spec fn luma_levels(s: Seq<u8>, n: int) -> Seq<u8> {
    Seq::new(n as nat, |i: int| luma_at(s, i) as u8)
}

/// Byte `k` of the binarised image: white where the pixel's grey level is
/// above Otsu's threshold (the threshold is the top level of the dark
/// class), black elsewhere, opaque.
pub open spec fn binary_byte(s: Seq<u8>, n: int, k: int) -> u8 {
    if k % 4 == 3 {
        255
    } else if luma_at(s, k / 4) > otsu_spec(luma_levels(s, n)) {
        255
    } else {
        0
    }
}

fn luma(b: u8, g: u8, r: u8) -> (v: u8)
    ensures
        v == (114 * b + 587 * g + 299 * r) / 1000,
{
    ((114 * b as u32 + 587 * g as u32 + 299 * r as u32) / 1000) as u8
}

/// Grey levels (BT.601) of a BGRA image binarised at Otsu's threshold:
/// white where a pixel's level is above the threshold, black at or below
/// it, as opaque BGRA.
pub fn preprocess_bgra(bgra_data: &[u8], width: u32, height: u32) -> (out: Vec<u8>)
    requires
        width * height <= u32::MAX,
        bgra_data@.len() >= 4 * (width * height),
    ensures
        out@.len() == 4 * (width * height),
        forall|k: int| 0 <= k < out@.len() ==> #[trigger] out@[k] == binary_byte(bgra_data@, width * height, k),
{
    let n: usize = (width * height) as usize;
    let len: usize = bgra_data.len();
    let ghost s = bgra_data@;
    let mut gray: Vec<u8> = Vec::new();
    let mut i: usize = 0;
    while i < n
        invariant
            i <= n,
            n == width * height,
            s == bgra_data@,
            len == s.len(),
            s.len() >= 4 * n,
            gray@ == luma_levels(s, i as int),
        decreases n - i,
    {
        proof {
            assert(4 * i + 4 <= bgra_data@.len());
        }
        let v = luma(bgra_data[4 * i], bgra_data[4 * i + 1], bgra_data[4 * i + 2]);
        gray.push(v);
        i = i + 1;
        proof {
            assert(gray@ =~= luma_levels(s, i as int));
        }
    }
    let t = otsu_threshold(&gray);
    let mut out: Vec<u8> = Vec::new();
    let mut j: usize = 0;
    while j < n
        invariant
            j <= n,
            n == width * height,
            s == bgra_data@,
            gray@ == luma_levels(s, n as int),
            t as int == otsu_spec(luma_levels(s, n as int)),
            out@.len() == 4 * j,
            forall|k: int| 0 <= k < out@.len() ==> #[trigger] out@[k] == binary_byte(s, n as int, k),
        decreases n - j,
    {
        let v: u8 = if gray[j] > t { 255 } else { 0 };
        out.push(v);
        out.push(v);
        out.push(v);
        out.push(255);
        proof {
            assert forall|k: int| 4 * j <= k < 4 * j + 4 implies #[trigger] out@[k] == binary_byte(s, n as int, k) by {
                assert(k / 4 == j as int);
                assert(gray@[j as int] == luma_at(s, j as int) as u8);
            }
        }
        j = j + 1;
    }
    out
}

// ---------------------------------------------------------------------------
// White text
// ---------------------------------------------------------------------------

/// Largest of three levels.
pub open spec fn max3(a: int, b: int, c: int) -> int {
    if a >= b && a >= c { a } else if b >= c { b } else { c }
}

/// Smallest of three levels.
pub open spec fn min3(a: int, b: int, c: int) -> int {
    if a <= b && a <= c { a } else if b <= c { b } else { c }
}

/// Pixel `i` of a BGRA buffer is white: value (largest channel) at least
/// 180 and saturation `(value - smallest) / value * 255` at most 50.
pub open spec fn white_pixel(s: Seq<u8>, i: int) -> bool {
    let v = max3(s[4 * i] as int, s[4 * i + 1] as int, s[4 * i + 2] as int);
    let m = min3(s[4 * i] as int, s[4 * i + 1] as int, s[4 * i + 2] as int);
    v >= 180 && (v - m) * 255 <= 50 * v
}

/// Byte `k` of the white-text image: white pixels white, every other pixel
/// black, opaque; bytes after the last whole pixel stay 0.
pub open spec fn white_byte(s: Seq<u8>, k: int) -> u8 {
    if k >= 4 * (s.len() / 4) {
        0
    } else if k % 4 == 3 {
        255
    } else if white_pixel(s, k / 4) {
        255
    } else {
        0
    }
}

/// The white-text image of a BGRA buffer.
pub open spec fn white_image(s: Seq<u8>) -> Seq<u8> {
    Seq::new(s.len(), |k: int| white_byte(s, k))
}

/// White-text extraction is idempotent: extracting the white text of its
/// own output gives that output back.
pub proof fn law_white_text_idempotent(s: Seq<u8>)
    ensures
        white_image(white_image(s)) == white_image(s),
{
    let w = white_image(s);
    assert forall|k: int| 0 <= k < w.len() implies #[trigger] white_byte(w, k) == w[k] by {
        if k < 4 * (s.len() / 4) {
            let i = k / 4;
            assert(w[4 * i] == white_byte(s, 4 * i));
            assert(w[4 * i + 1] == white_byte(s, 4 * i + 1));
            assert(w[4 * i + 2] == white_byte(s, 4 * i + 2));
            assert((4 * i) / 4 == i && (4 * i + 1) / 4 == i && (4 * i + 2) / 4 == i);
            assert((4 * i) % 4 == 0 && (4 * i + 1) % 4 == 1 && (4 * i + 2) % 4 == 2);
        }
    }
    assert(white_image(w) =~= w);
}

fn is_white(b: u8, g: u8, r: u8) -> (w: bool)
    ensures
        w == ({
            let v = max3(b as int, g as int, r as int);
            let m = min3(b as int, g as int, r as int);
            v >= 180 && (v - m) * 255 <= 50 * v
        }),
{
    let v: u32 = if b >= g && b >= r { b as u32 } else if g >= r { g as u32 } else { r as u32 };
    let m: u32 = if b <= g && b <= r { b as u32 } else if g <= r { g as u32 } else { r as u32 };
    v >= 180 && (v - m) * 255 <= 50 * v
}

/// Keeps the white text of a BGRA crop: white pixels (bright and barely
/// saturated) become white, all others black.
pub fn extract_white_text(bgra: &[u8], width: u32, height: u32) -> (out: Vec<u8>)
    ensures
        out@.len() == bgra@.len(),
        forall|k: int| 0 <= k < out@.len() ==> #[trigger] out@[k] == white_byte(bgra@, k),
        out@ == white_image(bgra@),
{
    let ghost s = bgra@;
    let len: usize = bgra.len();
    let whole: usize = len / 4;
    let mut out: Vec<u8> = Vec::new();
    let mut i: usize = 0;
    while i < whole
        invariant
            i <= whole,
            whole == s.len() / 4,
            len == s.len(),
            s == bgra@,
            out@.len() == 4 * i,
            forall|k: int| 0 <= k < out@.len() ==> #[trigger] out@[k] == white_byte(s, k),
        decreases whole - i,
    {
        proof {
            assert(4 * i + 4 <= bgra@.len());
        }
        let v: u8 = if is_white(bgra[4 * i], bgra[4 * i + 1], bgra[4 * i + 2]) { 255 } else { 0 };
        out.push(v);
        out.push(v);
        out.push(v);
        out.push(255);
        proof {
            assert forall|k: int| 4 * i <= k < 4 * i + 4 implies #[trigger] out@[k] == white_byte(s, k) by {
                assert(k / 4 == i as int);
            }
        }
        i = i + 1;
    }
    while out.len() < bgra.len()
        invariant
            4 * whole <= out@.len() <= s.len(),
            whole == s.len() / 4,
            s == bgra@,
            forall|k: int| 0 <= k < out@.len() ==> #[trigger] out@[k] == white_byte(s, k),
        decreases s.len() - out@.len(),
    {
        out.push(0);
    }
    proof {
        assert(out@ =~= white_image(s));
    }
    out
}

// ---------------------------------------------------------------------------
// Channel order
// ---------------------------------------------------------------------------

/// Byte `k` of the RGBA form of a BGRA buffer: blue and red swapped in
/// every whole pixel.
pub open spec fn rgba_byte(s: Seq<u8>, k: int) -> u8 {
    let base = k - k % 4;
    if k % 4 == 0 { s[base + 2] } else if k % 4 == 2 { s[base] } else { s[k] }
}

/// The RGBA form of a BGRA buffer (whole pixels only).
pub open spec fn rgba_image(s: Seq<u8>) -> Seq<u8> {
    Seq::new((4 * (s.len() / 4)) as nat, |k: int| rgba_byte(s, k))
}

/// Swapping blue and red twice gives a buffer of whole pixels back: the
/// same function turns BGRA into RGBA and RGBA into BGRA.
pub proof fn law_channel_swap_involution(s: Seq<u8>)
    requires
        s.len() % 4 == 0,
    ensures
        rgba_image(rgba_image(s)) == s,
{
    let t = rgba_image(s);
    assert forall|k: int| 0 <= k < s.len() implies #[trigger] rgba_byte(t, k) == s[k] by {
        let base = k - k % 4;
        assert(base % 4 == 0 && (base + 2) % 4 == 2 && (base + 2) - (base + 2) % 4 == base);
        assert(base - base % 4 == base);
    }
    assert(rgba_image(t) =~= s);
}

/// The pixels of a BGRA buffer in RGBA order (whole pixels only).
pub fn bgra_to_rgba(bgra: &[u8]) -> (out: Vec<u8>)
    ensures
        out@ == rgba_image(bgra@),
{
    let len: usize = bgra.len();
    let whole: usize = len / 4;
    let mut out: Vec<u8> = Vec::new();
    let mut i: usize = 0;
    while i < whole
        invariant
            i <= whole,
            len == bgra@.len(),
            whole == bgra@.len() / 4,
            out@.len() == 4 * i,
            forall|k: int| 0 <= k < out@.len() ==> #[trigger] out@[k] == rgba_byte(bgra@, k),
        decreases whole - i,
    {
        proof {
            assert(4 * i + 4 <= bgra@.len());
        }
        out.push(bgra[4 * i + 2]);
        out.push(bgra[4 * i + 1]);
        out.push(bgra[4 * i]);
        out.push(bgra[4 * i + 3]);
        proof {
            assert forall|k: int| 4 * i <= k < 4 * i + 4 implies #[trigger] out@[k] == rgba_byte(bgra@, k) by {
                assert(k - k % 4 == 4 * i);
            }
        }
        i = i + 1;
    }
    proof {
        assert(out@ =~= rgba_image(bgra@));
    }
    out
}

/// Byte `k` of the RGB form of a BGRA buffer: alpha dropped, blue and red
/// swapped.
pub open spec fn rgb_byte(s: Seq<u8>, k: int) -> u8 {
    let p = k / 3;
    if k % 3 == 0 { s[4 * p + 2] } else if k % 3 == 1 { s[4 * p + 1] } else { s[4 * p] }
}

/// The pixels of a BGRA buffer in RGB order (whole pixels only).
pub fn bgra_to_rgb(bgra: &[u8]) -> (out: Vec<u8>)
    ensures
        out@.len() == 3 * (bgra@.len() / 4),
        forall|k: int| 0 <= k < out@.len() ==> #[trigger] out@[k] == rgb_byte(bgra@, k),
{
    let len: usize = bgra.len();
    let whole: usize = len / 4;
    let mut out: Vec<u8> = Vec::new();
    let mut i: usize = 0;
    while i < whole
        invariant
            i <= whole,
            len == bgra@.len(),
            whole == bgra@.len() / 4,
            out@.len() == 3 * i,
            forall|k: int| 0 <= k < out@.len() ==> #[trigger] out@[k] == rgb_byte(bgra@, k),
        decreases whole - i,
    {
        proof {
            assert(4 * i + 4 <= bgra@.len());
        }
        out.push(bgra[4 * i + 2]);
        out.push(bgra[4 * i + 1]);
        out.push(bgra[4 * i]);
        proof {
            assert forall|k: int| 3 * i <= k < 3 * i + 3 implies #[trigger] out@[k] == rgb_byte(bgra@, k) by {
                assert(k / 3 == i as int);
            }
        }
        i = i + 1;
    }
    out
}

} // verus!
