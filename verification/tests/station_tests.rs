use lds::cfg::{DelayerCfg, PfbCfg, StationCfg};
use lds::freq::Freq;
use lds::station::{Station, StationError};

fn cfg(
    nants: usize,
    coarse: (usize, usize),
    fine: (usize, usize),
    ranges: &[(usize, usize)],
) -> StationCfg {
    StationCfg {
        nants,
        coarse_pfb: PfbCfg { nch: coarse.0, tap_per_ch: coarse.1 },
        delayer: DelayerCfg { max_delay: 128, half_tap: 16 },
        selected_coarse_ch: ranges.to_vec(),
        fine_pfb: PfbCfg { nch: fine.0, tap_per_ch: fine.1 },
    }
}

fn value(f: &Freq) -> f64 {
    f.num as f64 / f.den as f64
}

fn nums(f: &[Freq]) -> Vec<i64> {
    f.iter().map(|x| x.num).collect()
}

fn dens(f: &[Freq]) -> Vec<i64> {
    f.iter().map(|x| x.den).collect()
}

#[test]
fn new_station_keeps_what_it_was_given() {
    let s = Station::new(3, 8, 4, &[0, 5, 2]);
    assert_eq!(s.nants(), 3);
    assert_eq!(s.ncoarse_ch(), 8);
    assert_eq!(s.nfine_per_coarse(), 4);
    assert_eq!(s.fine_pfb_nch(), 8);
    assert_eq!(s.coarse_ch_selected(), &[0, 5, 2]);
}

#[test]
fn station_from_cfg() {
    let c = cfg(2, (8, 4), (4, 4), &[(0, 1)]);
    assert!(c.is_wf());
    let s = Station::from_cfg(&c, 32, 32).unwrap();
    assert_eq!(s.nants(), 2);
    assert_eq!(s.ncoarse_ch(), 8);
    assert_eq!(s.nfine_per_coarse(), 4);
    assert_eq!(s.fine_pfb_nch(), 8);
    assert_eq!(s.coarse_ch_selected(), &[0]);
}

#[test]
fn from_cfg_flattens_ranges_in_order() {
    let c = cfg(1, (16, 2), (4, 3), &[(4, 7), (0, 2), (9, 9), (12, 11), (15, 16)]);
    assert!(c.is_wf());
    let s = Station::from_cfg(&c, 32, 24).unwrap();
    assert_eq!(s.coarse_ch_selected(), &[4, 5, 6, 0, 1, 15]);
}

#[test]
fn from_cfg_with_nothing_selected() {
    let c = cfg(1, (16, 2), (4, 3), &[]);
    let s = Station::from_cfg(&c, 32, 24).unwrap();
    assert!(s.coarse_ch_selected().is_empty());
    assert!(s.fine_ch_freq_in_fs().is_empty());
    assert!(s.coarse_freq_of_fine_ch_in_fs().is_empty());
}

#[test]
fn from_cfg_refuses_wrong_coarse_coefficient_count() {
    let c = cfg(1, (8, 4), (4, 4), &[(0, 1)]);
    assert_eq!(Station::from_cfg(&c, 16, 32).err(), Some(StationError::CoarseCoeffCount));
    assert_eq!(Station::from_cfg(&c, 31, 32).err(), Some(StationError::CoarseCoeffCount));
    assert_eq!(Station::from_cfg(&c, 33, 32).err(), Some(StationError::CoarseCoeffCount));
    assert_eq!(Station::from_cfg(&c, 0, 32).err(), Some(StationError::CoarseCoeffCount));
}

#[test]
fn from_cfg_refuses_wrong_fine_coefficient_count() {
    let c = cfg(1, (8, 4), (4, 4), &[(0, 1)]);
    assert_eq!(Station::from_cfg(&c, 32, 16).err(), Some(StationError::FineCoeffCount));
    assert_eq!(Station::from_cfg(&c, 32, 31).err(), Some(StationError::FineCoeffCount));
    assert_eq!(Station::from_cfg(&c, 32, 0).err(), Some(StationError::FineCoeffCount));
}

#[test]
fn from_cfg_looks_at_the_coarse_filter_first() {
    let c = cfg(1, (8, 4), (4, 4), &[(0, 1)]);
    assert_eq!(Station::from_cfg(&c, 1, 1).err(), Some(StationError::CoarseCoeffCount));
}

#[test]
fn from_cfg_refuses_counts_that_no_filter_can_have() {
    let c = cfg(1, (8, usize::MAX), (4, usize::MAX), &[(0, 1)]);
    assert!(c.is_wf());
    assert_eq!(Station::from_cfg(&c, usize::MAX, 0).err(), Some(StationError::CoarseCoeffCount));
    let c = cfg(1, (8, 4), (4, usize::MAX / 4), &[(0, 1)]);
    assert_eq!(Station::from_cfg(&c, 32, usize::MAX).err(), Some(StationError::FineCoeffCount));
}

#[test]
fn coarse_frequencies_of_eight_channels() {
    let s = Station::new(1, 8, 4, &[0]);
    let f = s.coarse_ch_freq_in_fs(&[0, 1, 2, 3, 4, 5, 6, 7]);
    assert_eq!(nums(&f), vec![0, 1, 2, 3, -4, -3, -2, -1]);
    assert_eq!(dens(&f), vec![8; 8]);
    let expected = [0.0, 0.125, 0.25, 0.375, -0.5, -0.375, -0.25, -0.125];
    for (x, e) in f.iter().zip(expected.iter()) {
        assert_eq!(value(x), *e);
    }
}

#[test]
fn coarse_frequencies_of_seven_channels() {
    let s = Station::new(1, 7, 4, &[0]);
    let f = s.coarse_ch_freq_in_fs(&[0, 1, 2, 3, 4, 5, 6]);
    assert_eq!(nums(&f), vec![0, 1, 2, 3, -3, -2, -1]);
    assert_eq!(dens(&f), vec![7; 7]);
}

#[test]
fn coarse_frequency_of_a_single_channel() {
    let s = Station::new(1, 1, 1, &[0]);
    assert_eq!(s.coarse_ch_freq_in_fs(&[0]), vec![Freq { num: 0, den: 1 }]);
}

#[test]
fn coarse_frequencies_keep_the_order_asked_for() {
    let s = Station::new(1, 8, 4, &[]);
    let f = s.coarse_ch_freq_in_fs(&[7, 0, 4, 4, 3]);
    assert_eq!(nums(&f), vec![-1, 0, -4, -4, 3]);
    assert!(s.coarse_ch_freq_in_fs(&[]).is_empty());
}

#[test]
fn coarse_frequency_beyond_the_last_channel() {
    // The rule is applied as it stands to an index that is no channel.
    let s = Station::new(1, 8, 4, &[]);
    let f = s.coarse_ch_freq_in_fs(&[8, 11, 100]);
    assert_eq!(nums(&f), vec![0, 3, 92]);
    assert_eq!(dens(&f), vec![8; 3]);
}

#[test]
fn coarse_channel_zero_is_at_zero() {
    for nch in 1..40usize {
        let s = Station::new(1, nch, 1, &[]);
        let f = s.coarse_ch_freq_in_fs(&[0]);
        assert_eq!(f, vec![Freq { num: 0, den: nch as i64 }]);
    }
}

#[test]
fn coarse_frequencies_are_antisymmetric() {
    for nch in 1..40usize {
        let s = Station::new(1, nch, 1, &[]);
        let all: Vec<usize> = (0..nch).collect();
        let f = s.coarse_ch_freq_in_fs(&all);
        for c in 1..nch {
            if 2 * c == nch {
                assert_eq!(f[c], Freq { num: -(c as i64), den: nch as i64 });
                assert_eq!(value(&f[c]), -0.5);
            } else {
                assert_eq!(f[c].num, -f[nch - c].num);
                assert_eq!(f[c].den, f[nch - c].den);
            }
        }
    }
}

#[test]
fn coarse_channel_one_mirrors_the_last_channel() {
    let s = Station::new(1, 16, 1, &[]);
    let f = s.coarse_ch_freq_in_fs(&[1, 15]);
    assert_eq!(f[0], Freq { num: 1, den: 16 });
    assert_eq!(f[1], Freq { num: -1, den: 16 });
}

#[test]
fn fine_frequencies_of_one_selected_channel() {
    let c = cfg(1, (8, 4), (4, 4), &[(0, 1)]);
    let s = Station::from_cfg(&c, 32, 32).unwrap();
    let f = s.fine_ch_freq_in_fs();
    assert_eq!(nums(&f), vec![-3, -1, 1, 3]);
    assert_eq!(dens(&f), vec![64; 4]);
    let p = s.coarse_freq_of_fine_ch_in_fs();
    assert_eq!(p, vec![Freq { num: 0, den: 8 }; 4]);
}

#[test]
fn fine_frequencies_of_several_channels() {
    let s = Station::new(1, 8, 2, &[1, 7, 4]);
    let f = s.fine_ch_freq_in_fs();
    // 2 * n * bin + 2 * k - (n - 1) over 2 * n * nch, with n = 2.
    assert_eq!(nums(&f), vec![3, 5, -5, -3, -17, -15]);
    assert_eq!(dens(&f), vec![32; 6]);
    let p = s.coarse_freq_of_fine_ch_in_fs();
    assert_eq!(nums(&p), vec![1, 1, -1, -1, -4, -4]);
    assert_eq!(dens(&p), vec![8; 6]);
}

#[test]
fn fine_frequencies_follow_the_formula() {
    let nch: usize = 12;
    let n: usize = 5;
    let sel: Vec<usize> = vec![0, 3, 6, 11];
    let s = Station::new(1, nch, n, &sel);
    let f = s.fine_ch_freq_in_fs();
    let p = s.coarse_freq_of_fine_ch_in_fs();
    let centers = s.coarse_ch_freq_in_fs(&sel);
    assert_eq!(f.len(), sel.len() * n);
    assert_eq!(p.len(), sel.len() * n);
    let spacing = 1.0 / nch as f64;
    let mut i = 0;
    for fc in centers.iter() {
        for k in 0..n {
            let expected = value(fc) + (k as f64 - (n - 1) as f64 / 2.0) / n as f64 * spacing;
            assert!((value(&f[i]) - expected).abs() < 1e-15);
            assert_eq!(p[i], *fc);
            i += 1;
        }
    }
}

#[test]
fn fine_frequencies_are_centred_and_evenly_spaced() {
    let s = Station::new(1, 16, 6, &[3, 12]);
    let f = s.fine_ch_freq_in_fs();
    let p = s.coarse_freq_of_fine_ch_in_fs();
    for j in 0..2 {
        for k in 0..6 {
            let a = f[j * 6 + k];
            let b = f[j * 6 + 5 - k];
            // a + b == 2 * centre, as fractions
            assert_eq!((a.num + b.num) * p[j * 6].den, 2 * p[j * 6].num * a.den);
            if k > 0 {
                assert_eq!(a.num - f[j * 6 + k - 1].num, 2);
            }
            assert_eq!(a.den, 2 * 6 * 16);
        }
    }
}

#[test]
fn one_fine_channel_lies_at_the_coarse_centre() {
    for nch in 1..20usize {
        let sel: Vec<usize> = (0..nch).rev().collect();
        let s = Station::new(4, nch, 1, &sel);
        let f = s.fine_ch_freq_in_fs();
        let p = s.coarse_freq_of_fine_ch_in_fs();
        assert_eq!(f.len(), p.len());
        assert_eq!(f.len(), nch);
        for i in 0..f.len() {
            assert_eq!(f[i].num * p[i].den, p[i].num * f[i].den);
            assert_eq!(value(&f[i]), value(&p[i]));
        }
    }
}

#[test]
fn no_fine_channels_give_empty_tables() {
    let s = Station::new(1, 8, 0, &[1, 2, 3]);
    assert!(s.fine_ch_freq_in_fs().is_empty());
    assert!(s.coarse_freq_of_fine_ch_in_fs().is_empty());
    assert_eq!(s.fine_pfb_nch(), 0);
}

#[test]
fn station_without_antennas_has_frequencies() {
    let s = Station::new(0, 4, 2, &[1]);
    assert_eq!(s.nants(), 0);
    assert_eq!(nums(&s.fine_ch_freq_in_fs()), vec![3, 5]);
}

#[test]
fn fine_channels_of_the_zero_channel_surround_zero() {
    // One antenna, eight coarse channels of four taps, four fine channels of
    // four taps, coarse channel zero selected.
    let c = cfg(1, (8, 4), (4, 4), &[(0, 1)]);
    assert!(c.is_wf());
    assert!(c.is_countable());
    assert_eq!(c.total_nfine_ch(), 4);
    let s = Station::from_cfg(&c, 8 * 4, 4 * 4 * 2).unwrap();
    let f: Vec<f64> = s.fine_ch_freq_in_fs().iter().map(value).collect();
    assert_eq!(f, vec![-0.046875, -0.015625, 0.015625, 0.046875]);
    assert_eq!(f.len(), c.total_nfine_ch());
}

#[test]
fn ideal_gain_refers_each_fine_channel_to_itself() {
    let s = Station::new(3, 8, 4, &[0, 6]);
    let (f, fc) = s.gain_ideal_freqs();
    assert_eq!(f, s.fine_ch_freq_in_fs());
    assert_eq!(fc, f);
    assert_eq!(f.len(), 8);
}

#[test]
fn two_stage_gain_refers_each_fine_channel_to_its_coarse_centre() {
    let s = Station::new(3, 8, 4, &[0, 6]);
    let (f, fc) = s.gain_2stage_freqs();
    assert_eq!(f, s.fine_ch_freq_in_fs());
    assert_eq!(fc, s.coarse_freq_of_fine_ch_in_fs());
    assert_eq!(nums(&fc), vec![0, 0, 0, 0, -2, -2, -2, -2]);
    assert_eq!(f.len(), fc.len());
}

#[test]
fn two_stage_and_ideal_gain_agree_with_one_fine_channel() {
    let s = Station::new(5, 32, 1, &[0, 1, 15, 16, 17, 31]);
    let (f_ideal, fc_ideal) = s.gain_ideal_freqs();
    let (f_two, fc_two) = s.gain_2stage_freqs();
    assert_eq!(f_ideal, f_two);
    assert_eq!(fc_ideal.len(), fc_two.len());
    for (a, b) in fc_ideal.iter().zip(fc_two.iter()) {
        assert_eq!(a.num * b.den, b.num * a.den);
        assert_eq!(value(a), value(b));
    }
}

#[test]
fn two_stage_and_ideal_references_differ_with_more_fine_channels() {
    let s = Station::new(5, 32, 2, &[3]);
    let (_, fc_ideal) = s.gain_ideal_freqs();
    let (_, fc_two) = s.gain_2stage_freqs();
    assert_eq!(fc_ideal, vec![Freq { num: 11, den: 128 }, Freq { num: 13, den: 128 }]);
    assert_eq!(fc_two, vec![Freq { num: 3, den: 32 }, Freq { num: 3, den: 32 }]);
}

#[test]
fn fine_channels_lie_within_their_coarse_channel() {
    let nch: usize = 16;
    let n: usize = 5;
    let sel: Vec<usize> = (0..nch).collect();
    let s = Station::new(1, nch, n, &sel);
    let f = s.fine_ch_freq_in_fs();
    let p = s.coarse_freq_of_fine_ch_in_fs();
    for i in 0..f.len() {
        // |f - fc| < 1 / (2 * nch), over the denominator 2 * n * nch
        let centre = p[i].num * 2 * n as i64;
        assert_eq!(p[i].den * 2 * n as i64, f[i].den);
        assert!((f[i].num - centre).abs() < n as i64);
    }
}

#[test]
fn fine_channels_of_a_station_from_cfg_are_distinct() {
    let c = cfg(1, (16, 2), (3, 2), &[(4, 7), (0, 2), (9, 9), (15, 16), (7, 9)]);
    assert!(c.is_wf());
    let s = Station::from_cfg(&c, 32, 12).unwrap();
    let sel = s.coarse_ch_selected();
    assert_eq!(sel, &[4, 5, 6, 0, 1, 15, 7, 8]);
    let f = s.fine_ch_freq_in_fs();
    assert_eq!(f.len(), 24);
    for i in 0..f.len() {
        for j in (i + 1)..f.len() {
            assert_eq!(f[i].den, f[j].den);
            assert_ne!(f[i].num, f[j].num);
        }
    }
}
