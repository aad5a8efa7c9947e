//! The table that maps a lag between two microphones to the bearing of the
//! source, and its generation from the array's geometry.
//!
//! A source at bearing `theta` from the axis through two microphones reaches
//! them `d * cos(theta) / v` apart in time. The table inverts this relation
//! in integer arithmetic, with cosines scaled by 1000.

use crate::channels::div_toward_zero;
use vstd::prelude::*;

verus! {

/// Speed of sound in metres per second.
pub const V_SOUND: u32 = 343;

/// Cosine of each whole degree from 0 to 180, scaled by 1000 and indexed by
/// the degree.
pub const COS_MILLI: [i32; 181] = [
    1000, 999, 999, 998, 997, 996, 994, 992, 990, 987,
    984, 981, 978, 974, 970, 965, 961, 956, 951, 945,
    939, 933, 927, 920, 913, 906, 898, 891, 882, 874,
    866, 857, 848, 838, 829, 819, 809, 798, 788, 777,
    766, 754, 743, 731, 719, 707, 694, 682, 669, 656,
    642, 629, 615, 601, 587, 573, 559, 544, 529, 515,
    500, 484, 469, 454, 438, 422, 406, 390, 374, 358,
    342, 325, 309, 292, 275, 258, 241, 225, 207, 190,
    173, 156, 139, 121, 104, 87, 69, 52, 34, 17,
    0, -17, -34, -52, -69, -87, -104, -121, -139, -156,
    -173, -190, -207, -225, -241, -258, -275, -292, -309, -325,
    -342, -358, -374, -390, -406, -422, -438, -454, -469, -484,
    -500, -515, -529, -544, -559, -573, -587, -601, -615, -629,
    -642, -656, -669, -682, -694, -707, -719, -731, -743, -754,
    -766, -777, -788, -798, -809, -819, -829, -838, -848, -857,
    -866, -874, -882, -891, -898, -906, -913, -920, -927, -933,
    -939, -945, -951, -956, -961, -965, -970, -974, -978, -981,
    -984, -987, -990, -992, -994, -996, -997, -998, -999, -999,
    -1000,
];

/// Largest lag, in samples, that sound can take between microphones
/// `mic_distance_mm` apart at a sample period of `sample_period_us`.
pub open spec fn max_lag(sample_period_us: int, mic_distance_mm: int) -> int {
    (mic_distance_mm * 1000) / (sample_period_us * 343)
}

/// Number of lags from `-max_lag` to `max_lag`; always odd.
pub open spec fn lags_size(sample_period_us: int, mic_distance_mm: int) -> int {
    2 * max_lag(sample_period_us, mic_distance_mm) + 1
}

/// Cosine of the bearing at which a source produces the given lag, scaled by
/// 1000 and rounded toward zero.
pub open spec fn cos_of_lag(lag: int, sample_period_us: int, mic_distance_mm: int) -> int {
    div_toward_zero(lag * sample_period_us * 343, mic_distance_mm)
}

/// Whether `deg` is the bearing looked up for a scaled cosine: the smallest
/// degree whose cosine does not exceed `cos`, or zero if every tabulated
/// cosine exceeds it.
pub open spec fn is_bearing_of(deg: int, cos: int) -> bool {
    if exists|a: int| 0 <= a <= 180 && COS_MILLI[a] <= cos {
        &&& 0 <= deg <= 180
        &&& COS_MILLI[deg] <= cos
        &&& forall|a: int| 0 <= a < deg ==> COS_MILLI[a] > cos
    } else {
        deg == 0
    }
}

/// The bearing looked up for a scaled cosine; see [`is_bearing_of`].
pub open spec fn bearing_of(cos: int) -> int {
    choose|deg: int| is_bearing_of(deg, cos)
}

/// The lag table of the given geometry: the bearing of every lag from
/// `-max_lag` to `max_lag`, in that order.
pub open spec fn lag_table(sample_period_us: int, mic_distance_mm: int) -> Seq<u32> {
    Seq::new(
        lags_size(sample_period_us, mic_distance_mm) as nat,
        |i: int|
            bearing_of(
                cos_of_lag(
                    i - max_lag(sample_period_us, mic_distance_mm),
                    sample_period_us,
                    mic_distance_mm,
                ),
            ) as u32,
    )
}

/// Whether `table` is the lag table of the given geometry: one bearing per
/// lag from `-max_lag` to `max_lag`, stored at index `lag + max_lag`.
pub open spec fn is_lag_table(table: Seq<u32>, sample_period_us: int, mic_distance_mm: int) -> bool {
    &&& table.len() == lags_size(sample_period_us, mic_distance_mm)
    &&& forall|i: int|
        0 <= i < table.len() ==> is_bearing_of(
            #[trigger] table[i] as int,
            cos_of_lag(i - (table.len() / 2) as int, sample_period_us, mic_distance_mm),
        )
}

/// A lag folded back into `-max_lag ..= max_lag`: a lag beyond the upper end
/// re-enters from the lower end by its remainder modulo `max_lag`, and the
/// other way round; a lag already in range is unchanged.
pub open spec fn folded_lag(lag: int, max_lag: int) -> int {
    if max_lag == 0 {
        0
    } else if lag > max_lag {
        -max_lag + lag % max_lag
    } else if lag < -max_lag {
        max_lag - (-lag) % max_lag
    } else {
        lag
    }
}

/// A scaled cosine has one bearing.
pub proof fn lemma_bearing_is(deg: int, cos: int)
    requires
        is_bearing_of(deg, cos),
    ensures
        bearing_of(cos) == deg,
{
    let other = bearing_of(cos);
    if exists|a: int| 0 <= a <= 180 && COS_MILLI[a] <= cos {
        if other < deg {
            assert(COS_MILLI[other] > cos);
        } else if deg < other {
            assert(COS_MILLI[deg] > cos);
        }
    }
}

/// A table that meets [`is_lag_table`] is the lag table.
pub proof fn lemma_lag_table_is(table: Seq<u32>, sample_period_us: int, mic_distance_mm: int)
    requires
        sample_period_us > 0,
        mic_distance_mm > 0,
        is_lag_table(table, sample_period_us, mic_distance_mm),
    ensures
        table == lag_table(sample_period_us, mic_distance_mm),
{
    lemma_max_lag_bound(sample_period_us, mic_distance_mm);
    let half = (table.len() / 2) as int;
    assert(half == max_lag(sample_period_us, mic_distance_mm));
    let expected = lag_table(sample_period_us, mic_distance_mm);
    assert forall|i: int| 0 <= i < table.len() implies table[i] == expected[i] by {
        let cos = cos_of_lag(i - half, sample_period_us, mic_distance_mm);
        assert(is_bearing_of(table[i] as int, cos));
        lemma_bearing_is(table[i] as int, cos);
    }
    assert(table =~= expected);
}

/// A folded lag lies within the table's range.
pub proof fn lemma_folded_lag_in_range(lag: int, max_lag: int)
    requires
        max_lag >= 0,
    ensures
        -max_lag <= folded_lag(lag, max_lag) <= max_lag,
{
    if max_lag > 0 {
        assert(0 <= lag % max_lag < max_lag);
        assert(0 <= (-lag) % max_lag < max_lag);
    }
}

/// The largest lag spans no more than the distance between the microphones.
pub proof fn lemma_max_lag_bound(t: int, d: int)
    requires
        t > 0,
        d > 0,
    ensures
        0 <= max_lag(t, d),
        max_lag(t, d) * (t * 343) <= d * 1000,
        max_lag(t, d) <= d * 1000,
{
    let n = d * 1000;
    let m = t * 343;
    assert(0 <= (n / m) && (n / m) * m <= n && n / m <= n) by (nonlinear_arith)
        requires
            n > 0,
            m > 0,
    ;
}

/// Within the table's range of lags the scaled cosine stays within
/// `-1000 ..= 1000`.
pub proof fn lemma_cos_of_lag_bound(lag: int, t: int, d: int)
    requires
        t > 0,
        d > 0,
        -max_lag(t, d) <= lag <= max_lag(t, d),
    ensures
        -(d * 1000) <= lag * t * 343 <= d * 1000,
        -1000 <= cos_of_lag(lag, t, d) <= 1000,
{
    lemma_max_lag_bound(t, d);
    let k = max_lag(t, d);
    let m = t * 343;
    assert(lag * t * 343 == lag * m) by (nonlinear_arith)
        requires
            m == t * 343,
    ;
    assert(-(k * m) <= lag * m <= k * m) by (nonlinear_arith)
        requires
            -k <= lag <= k,
            m > 0,
    ;
    let num = lag * t * 343;
    if num >= 0 {
        assert(0 <= num / d <= 1000) by (nonlinear_arith)
            requires
                0 <= num <= d * 1000,
                d > 0,
        ;
    } else {
        let neg = -num;
        assert(0 <= neg / d <= 1000) by (nonlinear_arith)
            requires
                0 <= neg <= d * 1000,
                d > 0,
        ;
    }
}

/// The scaled cosine does not decrease as the lag grows.
pub proof fn lemma_cos_of_lag_monotonic(lag1: int, lag2: int, t: int, d: int)
    requires
        t > 0,
        d > 0,
        lag1 <= lag2,
    ensures
        cos_of_lag(lag1, t, d) <= cos_of_lag(lag2, t, d),
{
    let a = lag1 * t * 343;
    let b = lag2 * t * 343;
    assert(a <= b) by (nonlinear_arith)
        requires
            lag1 <= lag2,
            t > 0,
            a == lag1 * t * 343,
            b == lag2 * t * 343,
    ;
    lemma_div_toward_zero_monotonic(a, b, d);
}

/// Division rounded toward zero keeps the order of its numerators.
pub proof fn lemma_div_toward_zero_monotonic(a: int, b: int, d: int)
    requires
        d > 0,
        a <= b,
    ensures
        div_toward_zero(a, d) <= div_toward_zero(b, d),
{
    if a >= 0 {
        assert(a / d <= b / d) by (nonlinear_arith)
            requires
                0 <= a <= b,
                d > 0,
        ;
    } else if b >= 0 {
        let na = -a;
        assert(na / d >= 0 && b / d >= 0) by (nonlinear_arith)
            requires
                na >= 0,
                b >= 0,
                d > 0,
        ;
    } else {
        let na = -a;
        let nb = -b;
        assert(nb / d <= na / d) by (nonlinear_arith)
            requires
                0 <= nb <= na,
                d > 0,
        ;
    }
}

/// A larger cosine never looks up a larger bearing, as long as the smaller
/// cosine is one the table covers.
pub proof fn lemma_bearing_non_increasing(deg1: int, cos1: int, deg2: int, cos2: int)
    requires
        -1000 <= cos1 <= cos2,
        is_bearing_of(deg1, cos1),
        is_bearing_of(deg2, cos2),
    ensures
        deg2 <= deg1,
{
    assert(COS_MILLI[180] == -1000);
    assert(0 <= 180 <= 180 && COS_MILLI[180] <= cos1);
    assert(0 <= 180 <= 180 && COS_MILLI[180] <= cos2);
    if deg1 < deg2 {
        assert(COS_MILLI[deg1] > cos2);
    }
}

/// A cosine of zero looks up the broadside bearing of 90 degrees.
pub proof fn lemma_bearing_of_zero(deg: int)
    requires
        is_bearing_of(deg, 0),
    ensures
        deg == 90,
{
    assert(COS_MILLI[90] == 0);
    assert(0 <= 90 <= 180 && COS_MILLI[90] <= 0);
    if deg > 90 {
        assert(COS_MILLI[90] > 0);
    }
    if deg < 90 {
        lemma_cos_positive_below_90(deg);
    }
}

/// Every tabulated cosine below 90 degrees is positive.
pub proof fn lemma_cos_positive_below_90(a: int)
    requires
        0 <= a < 90,
    ensures
        COS_MILLI[a] > 0,
{
    assert(COS_MILLI[89] == 17);
    lemma_cos_table_non_increasing(a, 89);
}

/// The tabulated cosines never increase with the degree.
pub proof fn lemma_cos_table_non_increasing(a: int, b: int)
    requires
        0 <= a <= b <= 180,
    ensures
        COS_MILLI[a] >= COS_MILLI[b],
    decreases b - a,
{
    if a < b {
        lemma_cos_table_non_increasing(a, b - 1);
        lemma_cos_table_step(b - 1);
    }
}

/// Each tabulated cosine is at least the next one.
pub proof fn lemma_cos_table_step(a: int)
    requires
        0 <= a < 180,
    ensures
        COS_MILLI[a] >= COS_MILLI[a + 1],
{
}

/// Zero lag points broadside: the centre entry of a lag table is 90 degrees.
pub proof fn lemma_zero_lag_is_broadside(table: Seq<u32>, sample_period_us: int, mic_distance_mm: int)
    requires
        sample_period_us > 0,
        mic_distance_mm > 0,
        is_lag_table(table, sample_period_us, mic_distance_mm),
    ensures
        table[(table.len() / 2) as int] == 90,
{
    lemma_max_lag_bound(sample_period_us, mic_distance_mm);
    let c = (table.len() / 2) as int;
    assert(is_bearing_of(table[c] as int, cos_of_lag(c - c, sample_period_us, mic_distance_mm)));
    assert(0 * sample_period_us * 343 == 0) by (nonlinear_arith);
    assert(0int / mic_distance_mm == 0) by (nonlinear_arith)
        requires
            mic_distance_mm > 0,
    ;
    lemma_bearing_of_zero(table[c] as int);
}

/// The bearings of a lag table never increase as the lag grows from
/// `-max_lag` to `max_lag`.
pub proof fn lemma_lag_table_non_increasing(
    table: Seq<u32>,
    sample_period_us: int,
    mic_distance_mm: int,
    i: int,
    j: int,
)
    requires
        sample_period_us > 0,
        mic_distance_mm > 0,
        is_lag_table(table, sample_period_us, mic_distance_mm),
        0 <= i <= j < table.len(),
    ensures
        table[i] >= table[j],
{
    lemma_max_lag_bound(sample_period_us, mic_distance_mm);
    let half = (table.len() / 2) as int;
    assert(half == max_lag(sample_period_us, mic_distance_mm));
    lemma_cos_of_lag_bound(i - half, sample_period_us, mic_distance_mm);
    lemma_cos_of_lag_monotonic(i - half, j - half, sample_period_us, mic_distance_mm);
    assert(is_bearing_of(table[i] as int, cos_of_lag(i - half, sample_period_us, mic_distance_mm)));
    assert(is_bearing_of(table[j] as int, cos_of_lag(j - half, sample_period_us, mic_distance_mm)));
    lemma_bearing_non_increasing(
        table[i] as int,
        cos_of_lag(i - half, sample_period_us, mic_distance_mm),
        table[j] as int,
        cos_of_lag(j - half, sample_period_us, mic_distance_mm),
    );
}

/// Number of entries of the lag table for microphones `mic_distance_mm`
/// millimetres apart sampled every `sample_period_us` microseconds: twice the
/// largest number of whole samples that sound needs from one microphone to
/// the other, plus one for lag zero.
pub fn max_lags_size(sample_period_us: u32, mic_distance_mm: u32) -> (size: usize)
    requires
        sample_period_us > 0,
        lags_size(sample_period_us as int, mic_distance_mm as int) <= usize::MAX,
    ensures
        size == lags_size(sample_period_us as int, mic_distance_mm as int),
{
    let travelled: u64 = mic_distance_mm as u64 * 1000;
    let per_sample: u64 = sample_period_us as u64 * V_SOUND as u64;
    let lag: u64 = travelled / per_sample;
    proof {
        assert(lag == max_lag(sample_period_us as int, mic_distance_mm as int));
    }
    (lag as usize) * 2 + 1
}

/// Looks up the bearing for a scaled cosine: the first degree whose
/// tabulated cosine does not exceed `cos`, or zero if there is none.
pub fn bearing_of_cos(cos: i64) -> (deg: u32)
    ensures
        is_bearing_of(deg as int, cos as int),
        deg == bearing_of(cos as int),
        deg <= 180,
{
    let mut a: usize = 0;
    while a < 181
        invariant
            a <= 181,
            forall|b: int| 0 <= b < a ==> COS_MILLI[b] > cos,
        decreases 181 - a,
    {
        if COS_MILLI[a] as i64 <= cos {
            proof {
                lemma_bearing_is(a as int, cos as int);
            }
            return a as u32;
        }
        a = a + 1;
    }
    proof {
        lemma_bearing_is(0, cos as int);
    }
    0
}

/// Builds the lag table for the given sample period and microphone spacing.
///
/// Entry `i` holds the bearing, in whole degrees from 0 to 180, of a source
/// whose sound arrives `i - SIZE / 2` samples later at the second microphone
/// than at the first. `SIZE` must be the size that [`max_lags_size`] gives
/// for this geometry.
pub fn gen_lag_table<const T_S_US: u32, const D_MICS_MM: u32, const SIZE: usize>() -> (table: [
    u32;
    SIZE
])
    requires
        T_S_US > 0,
        D_MICS_MM > 0,
        SIZE == lags_size(T_S_US as int, D_MICS_MM as int),
    ensures
        table@ == lag_table(T_S_US as int, D_MICS_MM as int),
        is_lag_table(table@, T_S_US as int, D_MICS_MM as int),
        table[(SIZE / 2) as int] == 90,
        forall|i: int, j: int| 0 <= i <= j < SIZE ==> table[i] >= table[j],
        forall|i: int| 0 <= i < SIZE ==> table[i] <= 180,
{
    let mut table: [u32; SIZE] = [0u32; SIZE];
    let half: usize = SIZE / 2;
    proof {
        lemma_max_lag_bound(T_S_US as int, D_MICS_MM as int);
        assert(half == max_lag(T_S_US as int, D_MICS_MM as int));
    }
    let mut i: usize = 0;
    while i < SIZE
        invariant
            i <= SIZE,
            T_S_US > 0,
            D_MICS_MM > 0,
            half == SIZE / 2,
            half == max_lag(T_S_US as int, D_MICS_MM as int),
            SIZE == 2 * half + 1,
            half * (T_S_US * 343) <= D_MICS_MM * 1000,
            forall|k: int|
                0 <= k < i ==> is_bearing_of(
                    #[trigger] table[k] as int,
                    cos_of_lag(k - half, T_S_US as int, D_MICS_MM as int),
                ),
        decreases SIZE - i,
    {
        let lag: i64 = i as i64 - half as i64;
        proof {
            lemma_cos_of_lag_bound(lag as int, T_S_US as int, D_MICS_MM as int);
            assert(-(half as int) * T_S_US <= lag * T_S_US <= half * T_S_US) by (nonlinear_arith)
                requires
                    -(half as int) <= lag <= half,
                    T_S_US > 0,
            ;
            assert(half * T_S_US <= half * (T_S_US * 343)) by (nonlinear_arith)
                requires
                    0 <= half,
                    0 < T_S_US,
            ;
        }
        let scaled: i64 = lag * (T_S_US as i64) * (V_SOUND as i64);
        let cos: i64 = if scaled >= 0 {
            scaled / (D_MICS_MM as i64)
        } else {
            -((-scaled) / (D_MICS_MM as i64))
        };
        let theta: u32 = bearing_of_cos(cos);
        let ghost before = table@;
        table[i] = theta;
        proof {
            assert(forall|k: int| 0 <= k < i ==> table[k] == before[k]);
        }
        i = i + 1;
    }
    proof {
        lemma_zero_lag_is_broadside(table@, T_S_US as int, D_MICS_MM as int);
        lemma_lag_table_is(table@, T_S_US as int, D_MICS_MM as int);
        assert forall|a: int, b: int| 0 <= a <= b < SIZE implies table[a] >= table[b] by {
            lemma_lag_table_non_increasing(table@, T_S_US as int, D_MICS_MM as int, a, b);
        }
        assert forall|a: int| 0 <= a < SIZE implies table[a] <= 180 by {
            lemma_cos_of_lag_bound(a - half, T_S_US as int, D_MICS_MM as int);
            assert(is_bearing_of(
                table[a] as int,
                cos_of_lag(a - half, T_S_US as int, D_MICS_MM as int),
            ));
        }
    }
    table
}

/// Folds a lag into `-max_lag ..= max_lag`, in a type wide enough for the
/// half length of any table.
fn fold_lag(lag: i64, max_lag: i64) -> (folded: i64)
    requires
        max_lag >= 0,
        i32::MIN <= lag <= i32::MAX,
    ensures
        folded as int == folded_lag(lag as int, max_lag as int),
        -max_lag <= folded <= max_lag,
        -max_lag <= lag <= max_lag ==> folded == lag,
{
    proof {
        lemma_folded_lag_in_range(lag as int, max_lag as int);
    }
    if max_lag == 0 {
        0
    } else if lag > max_lag {
        -max_lag + lag % max_lag
    } else if lag < -max_lag {
        max_lag - (-lag) % max_lag
    } else {
        lag
    }
}

/// Brings a lag estimate back into the range `-max_lag ..= max_lag` that the
/// geometry allows, so that a noisy estimate still indexes the table.
pub fn reduce_lag(lag: i32, max_lag: i32) -> (folded: i32)
    requires
        max_lag >= 0,
    ensures
        folded as int == folded_lag(lag as int, max_lag as int),
        -max_lag <= folded <= max_lag,
        -max_lag <= lag <= max_lag ==> folded == lag,
{
    fold_lag(lag as i64, max_lag as i64) as i32
}

/// The bearing that `table` holds for `lag`.
///
/// The table covers the lags `-(LAGS_SIZE / 2) ..= LAGS_SIZE / 2`, one entry
/// each, so its size is odd. A lag within that range is looked up as it is;
/// a lag beyond it, as a noisy estimate may be, is folded into the range
/// first, as [`reduce_lag`] does.
pub fn lag_to_angle<const T_S_US: u32, const D_MICS_MM: u32, const LAGS_SIZE: usize>(
    lag: i32,
    table: &[u32; LAGS_SIZE],
) -> (angle: u32)
    requires
        LAGS_SIZE % 2 == 1,
    ensures
        angle == table[folded_lag(lag as int, (LAGS_SIZE / 2) as int) + LAGS_SIZE / 2],
        -(LAGS_SIZE / 2) <= lag <= LAGS_SIZE / 2 ==> angle == table[lag + LAGS_SIZE / 2],
{
    let half: usize = LAGS_SIZE / 2;
    let folded: i64 = fold_lag(lag as i64, half as i64);
    if folded >= 0 {
        table[half + folded as usize]
    } else {
        table[half - (-folded) as usize]
    }
}

} // verus!
