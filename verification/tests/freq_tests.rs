use lds::freq::{channel_freqs, Freq};
use lds::station::Station;

#[test]
fn channel_frequencies_of_an_even_count() {
    let f = channel_freqs(8);
    let nums: Vec<i64> = f.iter().map(|x| x.num).collect();
    assert_eq!(nums, vec![0, 1, 2, 3, -4, -3, -2, -1]);
    assert!(f.iter().all(|x| x.den == 8));
}

#[test]
fn channel_frequencies_of_an_odd_count() {
    let f = channel_freqs(5);
    let nums: Vec<i64> = f.iter().map(|x| x.num).collect();
    assert_eq!(nums, vec![0, 1, 2, -2, -1]);
    assert!(f.iter().all(|x| x.den == 5));
}

#[test]
fn channel_frequencies_of_small_counts() {
    assert!(channel_freqs(0).is_empty());
    assert_eq!(channel_freqs(1), vec![Freq { num: 0, den: 1 }]);
    assert_eq!(channel_freqs(2), vec![Freq { num: 0, den: 2 }, Freq { num: -1, den: 2 }]);
}

#[test]
fn channel_frequencies_are_the_coarse_frequencies_of_all_channels() {
    for nch in 1..33usize {
        let s = Station::new(1, nch, 1, &[]);
        let all: Vec<usize> = (0..nch).collect();
        assert_eq!(channel_freqs(nch), s.coarse_ch_freq_in_fs(&all));
    }
}

#[test]
fn channel_frequencies_lie_in_the_centred_band() {
    for n in 1..33usize {
        for (k, f) in channel_freqs(n).iter().enumerate() {
            assert!(-(n as i64) <= 2 * f.num && 2 * f.num < n as i64);
            assert_eq!((f.num - k as i64).rem_euclid(n as i64), 0);
            assert_eq!(f.den, n as i64);
        }
    }
}
