use folley::channels::Channels;
use folley::doa::calc_angle;
use folley::format::MicArraySample;
use folley::lag_table::{bearing_of_cos, gen_lag_table, lag_to_angle, max_lags_size, reduce_lag};
use folley::xcorr::{calc_lag, xcorr_real};

/// Ten frames of two sine-like channels riding on a DC offset; the other two
/// microphones are silent.
fn short_recording() -> [MicArraySample; 10] {
    [
        [2013, 2268, 0, 0],
        [2177, 2158, 0, 0],
        [2226, 1960, 0, 0],
        [2269, 1873, 0, 0],
        [2236, 1883, 0, 0],
        [2053, 1843, 0, 0],
        [1984, 2027, 0, 0],
        [1883, 2140, 0, 0],
        [1772, 2127, 0, 0],
        [1872, 2235, 0, 0],
    ]
}

/// A noise source heard by the second microphone four samples before the
/// first, as 12-bit readings.
fn delayed_recording<const N: usize>() -> [MicArraySample; N] {
    let mut state: u64 = 2024;
    let mut source: Vec<i16> = Vec::with_capacity(N + 4);
    for _ in 0..N + 4 {
        state = (state * 1103515245 + 12345) % (1 << 31);
        source.push(((state >> 16) % 4096) as i16);
    }
    let mut samples = [[0i16; 4]; N];
    for i in 0..N {
        samples[i] = [source[i], source[i + 4], 0, 0];
    }
    samples
}

#[test]
pub fn test_xcorr() {
    const M: usize = 10;
    const N: usize = 2 * M - 1;

    const EXPECTED: [i64; N] = [
        -38192, -78724, -49321, 24901, 87948, 159501, 168362, 80307, -28044, -148461, -192540,
        -134940, -52434, 9653, 71414, 66513, 39441, 21076, -6440,
    ];

    let samples: [MicArraySample; M] = short_recording();
    let channels = Channels::from_samples(samples);

    let mut out = [0i64; N];
    xcorr_real(&channels.ch1, &channels.ch2, &mut out);

    (0..N).for_each(|i| assert_eq!(out[i], EXPECTED[i]));
}

#[test]
pub fn test_calc_lag() {
    const M: usize = 1024;
    const N: usize = 2 * M - 1;
    let samples: [MicArraySample; M] = delayed_recording::<M>();
    let channels = Channels::from_samples(samples);
    let mut buf = [0i64; N];
    let lag = calc_lag(&channels.ch1, &channels.ch2, &mut buf);
    assert_eq!(lag, -4);
}

#[test]
pub fn test_calc_angle() {
    const M: usize = 1024;
    const N: usize = 9;
    let samples: [MicArraySample; M] = delayed_recording::<M>();
    let channels = Channels::from_samples(samples);
    let mut buf = [0i64; N];
    let lag_table = gen_lag_table::<74, 125, N>();
    let theta = calc_angle::<74, 125, N, M>(&channels.ch1, &channels.ch2, &mut buf, &lag_table);
    assert_eq!(theta, 145);
}

#[test]
pub fn test_lag_to_angle() {
    const FLOORED_LAG_ANGLES: [(i32, u32); 53] = [
        (-26, 177),
        (-25, 164),
        (-24, 158),
        (-23, 153),
        (-22, 148),
        (-21, 144),
        (-20, 141),
        (-19, 137),
        (-18, 134),
        (-17, 131),
        (-16, 128),
        (-15, 126),
        (-14, 123),
        (-13, 120),
        (-12, 118),
        (-11, 115),
        (-10, 113),
        (-9, 111),
        (-8, 108),
        (-7, 106),
        (-6, 104),
        (-5, 102),
        (-4, 99),
        (-3, 97),
        (-2, 95),
        (-1, 93),
        (0, 90),
        (1, 88),
        (2, 86),
        (3, 84),
        (4, 82),
        (5, 79),
        (6, 77),
        (7, 75),
        (8, 73),
        (9, 70),
        (10, 68),
        (11, 65),
        (12, 63),
        (13, 61),
        (14, 58),
        (15, 55),
        (16, 53),
        (17, 50),
        (18, 47),
        (19, 44),
        (20, 40),
        (21, 37),
        (22, 33),
        (23, 28),
        (24, 23),
        (25, 17),
        (26, 3),
    ];
    let lag_table = gen_lag_table::<14, 125, 53>();
    FLOORED_LAG_ANGLES.iter().for_each(|(lag, angle)| {
        assert_eq!(lag_to_angle::<14, 125, 53>(*lag, &lag_table), *angle)
    });
}

#[test]
fn from_samples_removes_the_mean_of_each_channel() {
    let samples: [MicArraySample; 4] = [[10, -7, 0, 100], [20, -7, 0, 101], [30, -8, 0, 102], [41, -9, 0, 100]];
    let channels = Channels::from_samples(samples);
    // Sums 101, -31, 0, 403: means 25, -7 (toward zero), 0, 100.
    assert_eq!(channels.ch1, [-15, -5, 5, 16]);
    assert_eq!(channels.ch2, [0, 0, -1, -2]);
    assert_eq!(channels.ch3, [0, 0, 0, 0]);
    assert_eq!(channels.ch4, [0, 1, 2, 0]);
}

#[test]
fn from_samples_saturates_instead_of_wrapping() {
    let samples: [MicArraySample; 3] =
        [[32767, -32768, 0, 0], [32767, -32768, 0, 0], [-32768, 32767, 0, 0]];
    let channels = Channels::from_samples(samples);
    // Means 10922 and -10923.
    assert_eq!(channels.ch1, [21845, 21845, -32768]);
    assert_eq!(channels.ch2, [-21845, -21845, 32767]);
}

#[test]
fn xcorr_center_is_the_dot_product() {
    let x: [i16; 5] = [3, -1, 4, 1, -5];
    let y: [i16; 5] = [2, 7, -1, 8, 2];
    let dot: i64 = 3 * 2 - 7 - 4 + 8 - 10;
    let mut full = [0i64; 9];
    xcorr_real(&x, &y, &mut full);
    assert_eq!(full[4], dot);
    let mut narrow = [0i64; 4];
    xcorr_real(&x, &y, &mut narrow);
    assert_eq!(narrow[2], dot);
    let mut single = [0i64; 1];
    xcorr_real(&x, &y, &mut single);
    assert_eq!(single[0], dot);
}

#[test]
fn xcorr_pads_with_zeros_and_overwrites_the_buffer() {
    let x: [i16; 3] = [1, 2, 3];
    let y: [i16; 3] = [4, 5, 6];
    let mut out = [99i64; 5];
    let argmax = xcorr_real(&x, &y, &mut out);
    // Lags -2..=2: x[2]*y[0], x[1]*y[0]+x[2]*y[1], dot, x[0]*y[1]+x[1]*y[2], x[0]*y[2].
    assert_eq!(out, [12, 23, 32, 17, 6]);
    assert_eq!(argmax, 2);
}

#[test]
fn xcorr_first_peak_wins_a_tie() {
    let x: [i16; 3] = [1, 0, 1];
    let y: [i16; 3] = [1, 0, 0];
    let mut out = [0i64; 5];
    let argmax = xcorr_real(&x, &y, &mut out);
    assert_eq!(out, [1, 0, 1, 0, 0]);
    assert_eq!(argmax, 0);
}

#[test]
fn xcorr_peak_of_a_buffer_without_a_positive_entry() {
    let x: [i16; 2] = [1, 2];
    let y: [i16; 2] = [-1, -1];
    let mut out = [0i64; 3];
    let argmax = xcorr_real(&x, &y, &mut out);
    assert_eq!(out, [-2, -3, -1]);
    assert_eq!(argmax, 2);
    let mut buf = [0i64; 3];
    assert_eq!(calc_lag(&x, &y, &mut buf), 1);
    assert_eq!(buf, [-2, -3, -1]);

    let x: [i16; 3] = [1, 1, 1];
    let y: [i16; 3] = [-1, -1, -1];
    let mut out = [0i64; 5];
    let argmax = xcorr_real(&x, &y, &mut out);
    assert_eq!(out, [-1, -2, -3, -2, -1]);
    assert_eq!(argmax, 0);
    let mut buf = [0i64; 5];
    assert_eq!(calc_lag(&x, &y, &mut buf), -2);
}

#[test]
fn xcorr_peak_of_a_silent_recording_is_the_first_entry() {
    let x: [i16; 4] = [0, 0, 0, 0];
    let mut out = [7i64; 7];
    assert_eq!(xcorr_real(&x, &x, &mut out), 0);
    assert_eq!(out, [0; 7]);
    let mut none: [i64; 0] = [];
    assert_eq!(xcorr_real(&x, &x, &mut none), 0);
}

#[test]
fn calc_lag_finds_a_pure_delay() {
    let x: [i16; 8] = [0, 0, 5, -3, 7, 0, 0, 0];
    let later: [i16; 8] = [0, 0, 0, 0, 5, -3, 7, 0];
    let earlier: [i16; 8] = [5, -3, 7, 0, 0, 0, 0, 0];
    let mut buf = [0i64; 15];
    assert_eq!(calc_lag(&x, &later, &mut buf), 2);
    assert_eq!(calc_lag(&x, &earlier, &mut buf), -2);
    assert_eq!(calc_lag(&x, &x, &mut buf), 0);
}

#[test]
fn max_lags_size_follows_the_geometry() {
    assert_eq!(max_lags_size(74, 125), 9);
    assert_eq!(max_lags_size(14, 125), 53);
    assert_eq!(max_lags_size(37, 125), 19);
    assert_eq!(max_lags_size(22, 125), 33);
    assert_eq!(max_lags_size(1000, 125), 1);
}

#[test]
fn lag_table_for_a_short_baseline() {
    let table = gen_lag_table::<74, 125, 9>();
    // cos = lag * 74 * 343 / 125, toward zero: -812, -609, -406, -203, 0, ...
    assert_eq!(table, [145, 128, 114, 102, 90, 79, 66, 53, 36]);
}

#[test]
fn zero_lag_is_broadside() {
    assert_eq!(lag_to_angle::<74, 125, 9>(0, &gen_lag_table::<74, 125, 9>()), 90);
    assert_eq!(lag_to_angle::<37, 125, 19>(0, &gen_lag_table::<37, 125, 19>()), 90);
    assert_eq!(lag_to_angle::<1000, 125, 1>(0, &gen_lag_table::<1000, 125, 1>()), 90);
}

#[test]
fn lag_table_never_increases_with_the_lag() {
    let table = gen_lag_table::<22, 125, 33>();
    for i in 1..table.len() {
        assert!(table[i - 1] >= table[i]);
    }
    assert!(table.iter().all(|deg| *deg <= 180));
}

#[test]
fn bearing_lookup_at_the_ends_of_the_table() {
    assert_eq!(bearing_of_cos(1000), 0);
    assert_eq!(bearing_of_cos(999), 1);
    assert_eq!(bearing_of_cos(998), 3);
    assert_eq!(bearing_of_cos(0), 90);
    assert_eq!(bearing_of_cos(-1), 91);
    assert_eq!(bearing_of_cos(-1000), 180);
    assert_eq!(bearing_of_cos(5000), 0);
    assert_eq!(bearing_of_cos(-1001), 0);
}

#[test]
fn reduce_lag_folds_into_the_range() {
    assert_eq!(reduce_lag(3, 4), 3);
    assert_eq!(reduce_lag(-4, 4), -4);
    assert_eq!(reduce_lag(4, 4), 4);
    assert_eq!(reduce_lag(5, 4), -3);
    assert_eq!(reduce_lag(8, 4), -4);
    assert_eq!(reduce_lag(-5, 4), 3);
    assert_eq!(reduce_lag(-8, 4), 4);
    assert_eq!(reduce_lag(-9, 4), 3);
    assert_eq!(reduce_lag(7, 0), 0);
    assert_eq!(reduce_lag(i32::MIN, 26), 26 - 24);
    assert_eq!(reduce_lag(i32::MAX, 26), -26 + 23);
}

#[test]
fn lag_to_angle_folds_a_lag_beyond_the_table() {
    let table = gen_lag_table::<74, 125, 9>();
    assert_eq!(table, [145, 128, 114, 102, 90, 79, 66, 53, 36]);
    let expected: [(i32, u32); 13] = [
        (-9, 53),
        (-8, 36),
        (-6, 66),
        (-5, 53),
        (-4, 145),
        (-1, 102),
        (0, 90),
        (4, 36),
        (5, 128),
        (6, 114),
        (7, 102),
        (8, 145),
        (9, 128),
    ];
    for (lag, angle) in expected {
        assert_eq!(lag_to_angle::<74, 125, 9>(lag, &table), angle, "lag {}", lag);
        assert_eq!(
            lag_to_angle::<74, 125, 9>(lag, &table),
            lag_to_angle::<74, 125, 9>(reduce_lag(lag, 4), &table)
        );
    }
    let single = gen_lag_table::<1000, 125, 1>();
    assert_eq!(lag_to_angle::<1000, 125, 1>(17, &single), 90);
    assert_eq!(lag_to_angle::<1000, 125, 1>(i32::MIN, &single), 90);
}
