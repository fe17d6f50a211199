//! Metric capability: maps a metric type to a builtin kind code or to a
//! custom distance function, and provides the builtin integer distance
//! kernels.
//!
//! Builtin kernels work on fixed-point scalar values as reported by
//! [`crate::VectorType::to_int`]: products of two scalars are therefore
//! scaled by [`DISTANCE_ONE`], and so are the reported distances.

use vstd::prelude::*;
use crate::MetricKind;
use crate::DISTANCE_ONE;
use crate::SCALAR_VALUE_BOUND;
use crate::MAX_DIMENSIONS;

verus! {

/// A metric usable by the typed facade: either one of the builtin kind
/// codes, or a custom distance function supplied by the implementor.
///
/// A custom metric overrides [`MetricType::custom_metric`] to return
/// `true` and supplies [`MetricType::custom_distance`]; the facade then
/// ranks vectors by that function. The distance function must be pure:
/// searches may evaluate it on any pair of stored vectors in any order.
pub trait MetricType {
    /// The builtin kind code this metric maps to.
    open spec fn spec_kind() -> MetricKind {
        MetricKind::Unknown
    }

    /// Whether this metric supplies its own distance function.
    open spec fn spec_custom() -> bool {
        false
    }

    /// The distance the custom function reports for two vectors of
    /// fixed-point scalar values; meaningful only for custom metrics.
    open spec fn spec_distance(a: Seq<i64>, b: Seq<i64>) -> i64 {
        0
    }

    /// The builtin kind code this metric maps to.
    fn get_kind() -> (k: MetricKind)
        ensures
            k == Self::spec_kind(),
    ;

    /// Whether this metric supplies its own distance function.
    fn custom_metric() -> (c: bool)
        ensures
            c == Self::spec_custom(),
    ;

    /// The distance between two vectors of fixed-point scalar values;
    /// consulted only when [`MetricType::custom_metric`] returns `true`.
    fn custom_distance(a: &Vec<i64>, b: &Vec<i64>) -> (d: i64)
        requires
            a@.len() == b@.len(),
        ensures
            d == Self::spec_distance(a@, b@),
    ;
}

/// Inner-product distance: one minus the dot product.
pub struct IP;

/// Squared Euclidean distance.
pub struct L2sq;

/// Cosine distance: one minus the cosine of the angle.
pub struct Cos;

/// Pearson correlation distance; no builtin kernel, so constructing an
/// index with it is rejected unless a custom function is supplied.
pub struct Pearson;

/// Haversine great-circle distance; no builtin kernel.
pub struct Haversine;

/// Divergence distance; no builtin kernel.
pub struct Divergence;

/// Hamming distance: the number of differing scalar positions.
pub struct Hamming;

/// Tanimoto distance; no builtin kernel.
pub struct Tanimoto;

/// Sorensen distance; no builtin kernel.
pub struct Sorensen;

impl MetricType for IP {
    open spec fn spec_kind() -> MetricKind {
        MetricKind::IP
    }

    open spec fn spec_custom() -> bool {
        false
    }

    open spec fn spec_distance(a: Seq<i64>, b: Seq<i64>) -> i64 {
        0
    }

    fn get_kind() -> (k: MetricKind) {
        MetricKind::IP
    }

    fn custom_metric() -> (c: bool) {
        false
    }

    fn custom_distance(a: &Vec<i64>, b: &Vec<i64>) -> (d: i64) {
        0
    }
}

impl MetricType for L2sq {
    open spec fn spec_kind() -> MetricKind {
        MetricKind::L2sq
    }

    open spec fn spec_custom() -> bool {
        false
    }

    open spec fn spec_distance(a: Seq<i64>, b: Seq<i64>) -> i64 {
        0
    }

    fn get_kind() -> (k: MetricKind) {
        MetricKind::L2sq
    }

    fn custom_metric() -> (c: bool) {
        false
    }

    fn custom_distance(a: &Vec<i64>, b: &Vec<i64>) -> (d: i64) {
        0
    }
}

impl MetricType for Cos {
    open spec fn spec_kind() -> MetricKind {
        MetricKind::Cos
    }

    open spec fn spec_custom() -> bool {
        false
    }

    open spec fn spec_distance(a: Seq<i64>, b: Seq<i64>) -> i64 {
        0
    }

    fn get_kind() -> (k: MetricKind) {
        MetricKind::Cos
    }

    fn custom_metric() -> (c: bool) {
        false
    }

    fn custom_distance(a: &Vec<i64>, b: &Vec<i64>) -> (d: i64) {
        0
    }
}

impl MetricType for Pearson {
    open spec fn spec_kind() -> MetricKind {
        MetricKind::Pearson
    }

    open spec fn spec_custom() -> bool {
        false
    }

    open spec fn spec_distance(a: Seq<i64>, b: Seq<i64>) -> i64 {
        0
    }

    fn get_kind() -> (k: MetricKind) {
        MetricKind::Pearson
    }

    fn custom_metric() -> (c: bool) {
        false
    }

    fn custom_distance(a: &Vec<i64>, b: &Vec<i64>) -> (d: i64) {
        0
    }
}

impl MetricType for Haversine {
    open spec fn spec_kind() -> MetricKind {
        MetricKind::Haversine
    }

    open spec fn spec_custom() -> bool {
        false
    }

    open spec fn spec_distance(a: Seq<i64>, b: Seq<i64>) -> i64 {
        0
    }

    fn get_kind() -> (k: MetricKind) {
        MetricKind::Haversine
    }

    fn custom_metric() -> (c: bool) {
        false
    }

    fn custom_distance(a: &Vec<i64>, b: &Vec<i64>) -> (d: i64) {
        0
    }
}

impl MetricType for Divergence {
    open spec fn spec_kind() -> MetricKind {
        MetricKind::Divergence
    }

    open spec fn spec_custom() -> bool {
        false
    }

    open spec fn spec_distance(a: Seq<i64>, b: Seq<i64>) -> i64 {
        0
    }

    fn get_kind() -> (k: MetricKind) {
        MetricKind::Divergence
    }

    fn custom_metric() -> (c: bool) {
        false
    }

    fn custom_distance(a: &Vec<i64>, b: &Vec<i64>) -> (d: i64) {
        0
    }
}

impl MetricType for Hamming {
    open spec fn spec_kind() -> MetricKind {
        MetricKind::Hamming
    }

    open spec fn spec_custom() -> bool {
        false
    }

    open spec fn spec_distance(a: Seq<i64>, b: Seq<i64>) -> i64 {
        0
    }

    fn get_kind() -> (k: MetricKind) {
        MetricKind::Hamming
    }

    fn custom_metric() -> (c: bool) {
        false
    }

    fn custom_distance(a: &Vec<i64>, b: &Vec<i64>) -> (d: i64) {
        0
    }
}

impl MetricType for Tanimoto {
    open spec fn spec_kind() -> MetricKind {
        MetricKind::Tanimoto
    }

    open spec fn spec_custom() -> bool {
        false
    }

    open spec fn spec_distance(a: Seq<i64>, b: Seq<i64>) -> i64 {
        0
    }

    fn get_kind() -> (k: MetricKind) {
        MetricKind::Tanimoto
    }

    fn custom_metric() -> (c: bool) {
        false
    }

    fn custom_distance(a: &Vec<i64>, b: &Vec<i64>) -> (d: i64) {
        0
    }
}

impl MetricType for Sorensen {
    open spec fn spec_kind() -> MetricKind {
        MetricKind::Sorensen
    }

    open spec fn spec_custom() -> bool {
        false
    }

    open spec fn spec_distance(a: Seq<i64>, b: Seq<i64>) -> i64 {
        0
    }

    fn get_kind() -> (k: MetricKind) {
        MetricKind::Sorensen
    }

    fn custom_metric() -> (c: bool) {
        false
    }

    fn custom_distance(a: &Vec<i64>, b: &Vec<i64>) -> (d: i64) {
        0
    }
}

/// Every value of the sequence lies within the scalar value bound.
pub open spec fn bounded_values(s: Seq<i64>) -> bool {
    forall|i: int|
        0 <= i < s.len() ==> -SCALAR_VALUE_BOUND <= #[trigger] s[i] <= SCALAR_VALUE_BOUND
}

/// The dot product of two equally long sequences.
pub open spec fn dot_spec(a: Seq<i64>, b: Seq<i64>) -> int
    recommends
        a.len() == b.len(),
    decreases a.len(),
{
    if a.len() == 0 {
        0
    } else {
        dot_spec(a.drop_last(), b.drop_last()) + a.last() * b.last()
    }
}

/// The sum of squared differences of two equally long sequences.
pub open spec fn l2sq_spec(a: Seq<i64>, b: Seq<i64>) -> int
    recommends
        a.len() == b.len(),
    decreases a.len(),
{
    if a.len() == 0 {
        0
    } else {
        l2sq_spec(a.drop_last(), b.drop_last()) + (a.last() - b.last()) * (a.last() - b.last())
    }
}

/// The number of positions at which the two sequences differ.
pub open spec fn hamming_spec(a: Seq<i64>, b: Seq<i64>) -> int
    recommends
        a.len() == b.len(),
    decreases a.len(),
{
    if a.len() == 0 {
        0
    } else {
        hamming_spec(a.drop_last(), b.drop_last()) + if a.last() != b.last() {
            1int
        } else {
            0int
        }
    }
}

/// The integer square root: the greatest `r` with `r * r <= n`.
pub open spec fn spec_sqrt(n: int) -> int {
    choose|r: int| 0 <= r && #[trigger] (r * r) <= n < (r + 1) * (r + 1)
}

/// A distance clamped into the machine range of [`crate::Distance`].
pub open spec fn clamp_distance(x: int) -> i64 {
    if x > i64::MAX {
        i64::MAX
    } else if x < i64::MIN {
        i64::MIN
    } else {
        x as i64
    }
}

proof fn lemma_dot_take_step(a: Seq<i64>, b: Seq<i64>, i: int)
    requires
        a.len() == b.len(),
        0 <= i < a.len(),
    ensures
        dot_spec(a.take(i + 1), b.take(i + 1)) == dot_spec(a.take(i), b.take(i)) + a[i] * b[i],
        l2sq_spec(a.take(i + 1), b.take(i + 1)) == l2sq_spec(a.take(i), b.take(i)) + (a[i] - b[i])
            * (a[i] - b[i]),
        hamming_spec(a.take(i + 1), b.take(i + 1)) == hamming_spec(a.take(i), b.take(i)) + if a[i]
            != b[i] {
            1int
        } else {
            0int
        },
{
    assert(a.take(i + 1).drop_last() =~= a.take(i));
    assert(b.take(i + 1).drop_last() =~= b.take(i));
    assert(a.take(i + 1).last() == a[i]);
    assert(b.take(i + 1).last() == b[i]);
}

/// The dot product of a sequence with itself is never negative.
pub proof fn lemma_dot_self_nonneg(a: Seq<i64>)
    ensures
        dot_spec(a, a) >= 0,
    decreases a.len(),
{
    if a.len() > 0 {
        lemma_dot_self_nonneg(a.drop_last());
        assert(a.last() * a.last() >= 0) by (nonlinear_arith);
    }
}

/// Computes [`dot_spec`] of the two vectors.
pub fn dot(a: &Vec<i64>, b: &Vec<i64>) -> (d: i128)
    requires
        a@.len() == b@.len(),
        a@.len() <= MAX_DIMENSIONS,
        bounded_values(a@),
        bounded_values(b@),
    ensures
        d == dot_spec(a@, b@),
        -(a@.len() * 0x1_0000_0000_0000_0000) <= d <= a@.len() * 0x1_0000_0000_0000_0000,
{
    let n = a.len();
    let mut acc: i128 = 0;
    let mut i: usize = 0;
    while i < n
        invariant
            0 <= i <= n,
            n == a@.len() == b@.len(),
            n <= MAX_DIMENSIONS,
            bounded_values(a@),
            bounded_values(b@),
            acc == dot_spec(a@.take(i as int), b@.take(i as int)),
            -(i as int * 0x1_0000_0000_0000_0000) <= acc <= i as int * 0x1_0000_0000_0000_0000,
        decreases n - i,
    {
        proof {
            assert(-0x1_0000_0000_0000_0000 <= (a@[i as int] as int) * (b@[i as int] as int)
                <= 0x1_0000_0000_0000_0000) by (nonlinear_arith)
                requires
                    -SCALAR_VALUE_BOUND <= a@[i as int] <= SCALAR_VALUE_BOUND,
                    -SCALAR_VALUE_BOUND <= b@[i as int] <= SCALAR_VALUE_BOUND,
                    SCALAR_VALUE_BOUND == 0x1_0000_0000,
            ;
            lemma_dot_take_step(a@, b@, i as int);
        }
        let prod: i128 = (a[i] as i128) * (b[i] as i128);
        acc = acc + prod;
        i = i + 1;
    }
    proof {
        assert(a@.take(n as int) =~= a@);
        assert(b@.take(n as int) =~= b@);
    }
    acc
}

/// Computes [`l2sq_spec`] of the two vectors.
pub fn l2sq_sum(a: &Vec<i64>, b: &Vec<i64>) -> (d: i128)
    requires
        a@.len() == b@.len(),
        a@.len() <= MAX_DIMENSIONS,
        bounded_values(a@),
        bounded_values(b@),
    ensures
        d == l2sq_spec(a@, b@),
        0 <= d <= a@.len() * 0x4_0000_0000_0000_0000,
{
    let n = a.len();
    let mut acc: i128 = 0;
    let mut i: usize = 0;
    while i < n
        invariant
            0 <= i <= n,
            n == a@.len() == b@.len(),
            n <= MAX_DIMENSIONS,
            bounded_values(a@),
            bounded_values(b@),
            acc == l2sq_spec(a@.take(i as int), b@.take(i as int)),
            0 <= acc <= i as int * 0x4_0000_0000_0000_0000,
        decreases n - i,
    {
        let diff: i128 = (a[i] as i128) - (b[i] as i128);
        proof {
            assert(0 <= ((a@[i as int] as i128) - (b@[i as int] as i128)) * ((a@[i as int] as i128)
                - (b@[i as int] as i128)) <= 0x4_0000_0000_0000_0000) by (nonlinear_arith)
                requires
                    -SCALAR_VALUE_BOUND <= a@[i as int] <= SCALAR_VALUE_BOUND,
                    -SCALAR_VALUE_BOUND <= b@[i as int] <= SCALAR_VALUE_BOUND,
                    SCALAR_VALUE_BOUND == 0x1_0000_0000,
            ;
            lemma_dot_take_step(a@, b@, i as int);
        }
        acc = acc + diff * diff;
        i = i + 1;
    }
    proof {
        assert(a@.take(n as int) =~= a@);
        assert(b@.take(n as int) =~= b@);
    }
    acc
}

/// Computes [`hamming_spec`] of the two vectors.
pub fn hamming_distance(a: &Vec<i64>, b: &Vec<i64>) -> (d: i64)
    requires
        a@.len() == b@.len(),
        a@.len() <= MAX_DIMENSIONS,
    ensures
        d == hamming_spec(a@, b@),
        0 <= d <= a@.len(),
{
    let n = a.len();
    let mut acc: i64 = 0;
    let mut i: usize = 0;
    while i < n
        invariant
            0 <= i <= n,
            n == a@.len() == b@.len(),
            n <= MAX_DIMENSIONS,
            acc == hamming_spec(a@.take(i as int), b@.take(i as int)),
            0 <= acc <= i,
        decreases n - i,
    {
        proof {
            lemma_dot_take_step(a@, b@, i as int);
        }
        if a[i] != b[i] {
            acc = acc + 1;
        }
        i = i + 1;
    }
    proof {
        assert(a@.take(n as int) =~= a@);
        assert(b@.take(n as int) =~= b@);
    }
    acc
}

/// Computes the integer square root of `n`.
pub fn integer_sqrt(n: u128) -> (r: u128)
    requires
        n < 0x4000_0000_0000_0000_0000_0000_0000_0000u128,
    ensures
        0 <= r,
        r * r <= n,
        n < (r + 1) * (r + 1),
{
    let mut lo: u128 = 0;
    let mut hi: u128 = 0x8000_0000_0000_0000;
    proof {
        assert((0x8000_0000_0000_0000 as int) * (0x8000_0000_0000_0000 as int)
            == 0x4000_0000_0000_0000_0000_0000_0000_0000) by (nonlinear_arith);
    }
    while lo + 1 < hi
        invariant
            0 <= lo < hi <= 0x8000_0000_0000_0000,
            lo * lo <= n,
            n < hi * hi,
        decreases hi - lo,
    {
        let mid = lo + (hi - lo) / 2;
        proof {
            assert(mid * mid < 0x1_0000_0000_0000_0000_0000_0000_0000_0000) by (nonlinear_arith)
                requires
                    0 <= mid <= 0x8000_0000_0000_0000u128,
            ;
        }
        if mid * mid <= n {
            lo = mid;
        } else {
            hi = mid;
        }
    }
    lo
}

/// The integer square root computed by [`integer_sqrt`] is the unique
/// witness of [`spec_sqrt`].
pub proof fn lemma_sqrt_unique(n: int, r: int)
    requires
        0 <= r,
        r * r <= n,
        n < (r + 1) * (r + 1),
    ensures
        spec_sqrt(n) == r,
{
    assert(0 <= r && r * r <= n < (r + 1) * (r + 1));
    let c = choose|c: int| 0 <= c && #[trigger] (c * c) <= n < (c + 1) * (c + 1);
    assert(0 <= c && c * c <= n < (c + 1) * (c + 1));
    assert(c == r) by (nonlinear_arith)
        requires
            0 <= r,
            r * r <= n,
            n < (r + 1) * (r + 1),
            0 <= c,
            c * c <= n,
            n < (c + 1) * (c + 1),
    ;
}

/// The inner-product distance of two fixed-point vectors: one (as
/// [`DISTANCE_ONE`]) minus their dot product, clamped.
pub open spec fn ip_distance_spec(a: Seq<i64>, b: Seq<i64>) -> i64 {
    clamp_distance(DISTANCE_ONE - dot_spec(a, b))
}

/// The squared Euclidean distance of two fixed-point vectors, clamped.
pub open spec fn l2sq_distance_spec(a: Seq<i64>, b: Seq<i64>) -> i64 {
    clamp_distance(l2sq_spec(a, b))
}

/// The cosine distance of two fixed-point vectors: one (as
/// [`DISTANCE_ONE`]) minus their dot product divided by the product of
/// the integer square roots of their squared norms, clamped. A zero
/// denominator (a vector with no magnitude) yields [`DISTANCE_ONE`].
pub open spec fn cos_distance_spec(a: Seq<i64>, b: Seq<i64>) -> i64 {
    let dp = dot_spec(a, b);
    let denom = spec_sqrt(dot_spec(a, a)) * spec_sqrt(dot_spec(b, b));
    if denom == 0 {
        DISTANCE_ONE
    } else {
        let q = if dp >= 0 {
            (dp * DISTANCE_ONE) / denom
        } else {
            -(((-dp) * DISTANCE_ONE) / denom)
        };
        clamp_distance(DISTANCE_ONE - q)
    }
}

/// The Hamming distance of two vectors; always within range, so no
/// clamping is involved.
pub open spec fn hamming_distance_spec(a: Seq<i64>, b: Seq<i64>) -> i64 {
    hamming_spec(a, b) as i64
}

/// Clamps a wide intermediate distance into [`crate::Distance`] range.
pub fn clamp_distance_exec(x: i128) -> (d: i64)
    ensures
        d == clamp_distance(x as int),
{
    if x > i64::MAX as i128 {
        i64::MAX
    } else if x < i64::MIN as i128 {
        i64::MIN
    } else {
        x as i64
    }
}

/// Computes [`ip_distance_spec`] of the two vectors.
pub fn ip_distance(a: &Vec<i64>, b: &Vec<i64>) -> (d: i64)
    requires
        a@.len() == b@.len(),
        a@.len() <= MAX_DIMENSIONS,
        bounded_values(a@),
        bounded_values(b@),
    ensures
        d == ip_distance_spec(a@, b@),
{
    let dp = dot(a, b);
    clamp_distance_exec((DISTANCE_ONE as i128) - dp)
}

/// Computes [`l2sq_distance_spec`] of the two vectors.
pub fn l2sq_distance(a: &Vec<i64>, b: &Vec<i64>) -> (d: i64)
    requires
        a@.len() == b@.len(),
        a@.len() <= MAX_DIMENSIONS,
        bounded_values(a@),
        bounded_values(b@),
    ensures
        d == l2sq_distance_spec(a@, b@),
{
    let s = l2sq_sum(a, b);
    clamp_distance_exec(s)
}

/// Computes [`cos_distance_spec`] of the two vectors.
pub fn cos_distance(a: &Vec<i64>, b: &Vec<i64>) -> (d: i64)
    requires
        a@.len() == b@.len(),
        a@.len() <= MAX_DIMENSIONS,
        bounded_values(a@),
        bounded_values(b@),
    ensures
        d == cos_distance_spec(a@, b@),
{
    let dp = dot(a, b);
    let na = dot(a, a);
    let nb = dot(b, b);
    proof {
        lemma_dot_self_nonneg(a@);
        lemma_dot_self_nonneg(b@);
    }
    let ra = integer_sqrt(na as u128);
    let rb = integer_sqrt(nb as u128);
    proof {
        lemma_sqrt_unique(na as int, ra as int);
        lemma_sqrt_unique(nb as int, rb as int);
        assert(ra <= 0x800_0000_0000u128) by (nonlinear_arith)
            requires
                ra * ra <= na as u128,
                na as u128 <= 0x10_0000_0000_0000_0000_0000u128,
        ;
        assert(rb <= 0x800_0000_0000u128) by (nonlinear_arith)
            requires
                rb * rb <= nb as u128,
                nb as u128 <= 0x10_0000_0000_0000_0000_0000u128,
        ;
        assert(ra * rb <= 0x40_0000_0000_0000_0000_0000u128) by (nonlinear_arith)
            requires
                ra <= 0x800_0000_0000u128,
                rb <= 0x800_0000_0000u128,
        ;
    }
    let denom: u128 = ra * rb;
    if denom == 0 {
        DISTANCE_ONE
    } else {
        let neg = dp < 0;
        let mag: u128 = if neg {
            (-dp) as u128
        } else {
            dp as u128
        };
        let num: u128 = mag * (DISTANCE_ONE as u128);
        proof {
            assert(num / denom <= num) by (nonlinear_arith)
                requires
                    denom > 0,
                    num >= 0,
            ;
        }
        let q: u128 = num / denom;
        let qq: i128 = if neg {
            -(q as i128)
        } else {
            q as i128
        };
        let result = clamp_distance_exec((DISTANCE_ONE as i128) - qq);
        proof {
            let dps = dot_spec(a@, b@);
            let denoms = spec_sqrt(dot_spec(a@, a@)) * spec_sqrt(dot_spec(b@, b@));
            assert(denoms == denom as int);
            if dps >= 0 {
                assert(qq == (dps * DISTANCE_ONE) / denoms);
            } else {
                assert(mag == -dps);
                assert(qq == -(((-dps) * DISTANCE_ONE) / denoms));
            }
        }
        result
    }
}

/// Whether the engine holds a builtin kernel for the given kind.
pub open spec fn builtin_supported(kind: MetricKind) -> bool {
    ||| kind == MetricKind::IP
    ||| kind == MetricKind::L2sq
    ||| kind == MetricKind::Cos
    ||| kind == MetricKind::Hamming
}

/// The distance that the builtin kernel of the given kind reports.
pub open spec fn builtin_distance_spec(kind: MetricKind, a: Seq<i64>, b: Seq<i64>) -> i64
    recommends
        builtin_supported(kind),
{
    match kind {
        MetricKind::IP => ip_distance_spec(a, b),
        MetricKind::L2sq => l2sq_distance_spec(a, b),
        MetricKind::Cos => cos_distance_spec(a, b),
        MetricKind::Hamming => hamming_distance_spec(a, b),
        _ => 0,
    }
}

/// Reports whether the engine holds a builtin kernel for the kind.
pub fn builtin_supported_exec(kind: MetricKind) -> (r: bool)
    ensures
        r == builtin_supported(kind),
{
    match kind {
        MetricKind::IP => true,
        MetricKind::L2sq => true,
        MetricKind::Cos => true,
        MetricKind::Hamming => true,
        _ => false,
    }
}

/// Dispatches to the builtin kernel of the given kind.
pub fn builtin_distance(kind: MetricKind, a: &Vec<i64>, b: &Vec<i64>) -> (d: i64)
    requires
        builtin_supported(kind),
        a@.len() == b@.len(),
        a@.len() <= MAX_DIMENSIONS,
        bounded_values(a@),
        bounded_values(b@),
    ensures
        d == builtin_distance_spec(kind, a@, b@),
{
    match kind {
        MetricKind::IP => ip_distance(a, b),
        MetricKind::L2sq => l2sq_distance(a, b),
        MetricKind::Cos => cos_distance(a, b),
        _ => hamming_distance(a, b),
    }
}

} // verus!
