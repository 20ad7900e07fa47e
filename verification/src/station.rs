//! The layout of a station and the frequencies of its channels.
//!
//! A station has a number of antennas, a first channelizer stage that splits
//! the sample rate into `ncoarse_ch` equal coarse channels, and a second stage
//! that splits each selected coarse channel into `nfine_per_coarse` fine
//! channels.  Every frequency is a fraction of the sample rate.

use crate::cfg::{
    flatten_ranges, lemma_flatten_contains, lemma_flatten_no_duplicates, range_channels,
    range_contains, sizes_fit, StationCfg,
};
use crate::freq::{
    centered_bin, coarse_ratio, coarse_table, fine_ratio, fine_table, lemma_fine_table_distinct,
    lemma_single_fine_is_parent, parent_table, proper, ratios, Freq, Ratio,
};
use vstd::arithmetic::div_mod::lemma_fundamental_div_mod_converse;
use vstd::prelude::*;

verus! {

/// What a [`Station`] is made of, as mathematical values.
pub struct StationView {
    pub nants: nat,
    pub ncoarse_ch: nat,
    pub nfine_per_coarse: nat,
    pub coarse_ch_selected: Seq<usize>,
}

impl StationView {
    /// There is at least one coarse channel, every selected channel is one of
    /// the coarse channels, and the channel counts are small enough for the
    /// machine.
    pub open spec fn wf(self) -> bool {
        &&& self.ncoarse_ch >= 1
        &&& sizes_fit(self.ncoarse_ch as int, self.nfine_per_coarse as int)
        &&& forall|i: int|
            0 <= i < self.coarse_ch_selected.len() ==> #[trigger] self.coarse_ch_selected[i]
                < self.ncoarse_ch
    }

    /// With `subdiv` points per fine channel, the number of points across one
    /// coarse channel fits in a `usize`, and every point is a fraction of two
    /// `i64`.
    pub open spec fn grid_fits(self, subdiv: int) -> bool {
        &&& self.nfine_per_coarse * subdiv <= usize::MAX
        &&& 2 * (self.nfine_per_coarse * subdiv) * self.ncoarse_ch <= i64::MAX
    }

    /// The centre frequencies of the coarse channels `ch`, in order.
    pub open spec fn coarse_freqs(self, ch: Seq<usize>) -> Seq<Ratio> {
        coarse_table(ch, self.ncoarse_ch as int)
    }

    /// `n` evenly spaced frequencies across each selected coarse channel,
    /// centred on it, channel after channel and ascending within each.
    pub open spec fn grid(self, n: int) -> Seq<Ratio> {
        fine_table(self.coarse_ch_selected, self.ncoarse_ch as int, n)
    }

    /// The centre frequencies of the fine channels, in the order of the second
    /// stage's output.
    pub open spec fn fine_freqs(self) -> Seq<Ratio> {
        self.grid(self.nfine_per_coarse as int)
    }

    /// For each fine channel, in the order of the second stage's output, the
    /// centre frequency of the coarse channel that it was split from.
    pub open spec fn parent_freqs(self) -> Seq<Ratio> {
        parent_table(
            self.coarse_ch_selected,
            self.ncoarse_ch as int,
            self.nfine_per_coarse as int,
        )
    }
}

/// The layout of a station.
#[derive(Debug)]
pub struct Station {
    nants: usize,
    ncoarse_ch: usize,
    nfine_per_coarse: usize,
    coarse_ch_selected: Vec<usize>,
}

/// Why a station could not be made from a configuration.
#[derive(Clone, Copy, Debug, PartialEq, Eq, Structural)]
pub enum StationError {
    /// The first stage's prototype filter does not have one coefficient for
    /// each tap of each channel.
    CoarseCoeffCount,
    /// The second stage's prototype filter does not have two coefficients for
    /// each tap of each channel.
    FineCoeffCount,
}

impl View for Station {
    type V = StationView;

    closed spec fn view(&self) -> StationView {
        StationView {
            nants: self.nants as nat,
            ncoarse_ch: self.ncoarse_ch as nat,
            nfine_per_coarse: self.nfine_per_coarse as nat,
            coarse_ch_selected: self.coarse_ch_selected@,
        }
    }
}

/// The station that a configuration describes.
pub open spec fn station_of_cfg(cfg: StationCfg) -> StationView {
    StationView {
        nants: cfg.nants as nat,
        ncoarse_ch: cfg.coarse_pfb.nch as nat,
        nfine_per_coarse: cfg.fine_pfb.nch as nat,
        coarse_ch_selected: flatten_ranges(cfg.selected_coarse_ch@),
    }
}

/// The centre frequency of coarse channel `c` out of `nch`.
fn coarse_freq(c: usize, nch: usize) -> (f: Freq)
    requires
        1 <= nch <= i64::MAX,
        c <= i64::MAX,
    ensures
        f@ == coarse_ratio(c as int, nch as int),
        f.den > 0,
{
    let num: i64 = if c <= (nch - 1) / 2 {
        c as i64
    } else {
        c as i64 - nch as i64
    };
    Freq { num, den: nch as i64 }
}

/// Point `k` out of `n` across coarse channel `c` out of `nch`.
fn fine_freq(c: usize, nch: usize, k: usize, n: usize) -> (f: Freq)
    requires
        c < nch,
        k < n,
        2 * n * nch <= i64::MAX,
    ensures
        f@ == fine_ratio(c as int, nch as int, k as int, n as int),
        f.den > 0,
{
    let ghost bin: int = centered_bin(c as int, nch as int);
    assert(n <= n * nch && nch <= n * nch && 2 * n * nch == 2 * (n * nch)) by (nonlinear_arith)
        requires
            n >= 1,
            nch >= 1,
    ;
    assert(-(n * nch) <= 2 * n * bin <= n * nch - n && 2 * n * bin == (2 * n) * bin)
        by (nonlinear_arith)
        requires
            n >= 1,
            -nch <= 2 * bin <= nch - 1,
    ;
    let center: Freq = coarse_freq(c, nch);
    let twice_n: i64 = 2 * (n as i64);
    let offset: i64 = 2 * (k as i64) - (n as i64 - 1);
    let den: i64 = twice_n * (nch as i64);
    assert(den == 2 * n * nch) by (nonlinear_arith)
        requires
            den == (2 * n) * nch,
    ;
    Freq { num: twice_n * center.num + offset, den }
}

impl Station {
    /// The station is usable: see [`StationView::wf`].
    pub open spec fn wf(&self) -> bool {
        self@.wf()
    }

    /// A station of `nants` antennas with `ncoarse_ch` coarse channels, of
    /// which those in `coarse_ch_selected` are split into `nfine_ch` fine
    /// channels each.
    pub fn new(
        nants: usize,
        ncoarse_ch: usize,
        nfine_ch: usize,
        coarse_ch_selected: &[usize],
    ) -> (s: Station)
        requires
            ncoarse_ch >= 1,
            sizes_fit(ncoarse_ch as int, nfine_ch as int),
            forall|i: int|
                0 <= i < coarse_ch_selected@.len() ==> #[trigger] coarse_ch_selected@[i]
                    < ncoarse_ch,
        ensures
            s.wf(),
            s@ == (StationView {
                nants: nants as nat,
                ncoarse_ch: ncoarse_ch as nat,
                nfine_per_coarse: nfine_ch as nat,
                coarse_ch_selected: coarse_ch_selected@,
            }),
    {
        let mut selected: Vec<usize> = Vec::new();
        let mut i: usize = 0;
        while i < coarse_ch_selected.len()
            invariant
                i <= coarse_ch_selected@.len(),
                selected@ == coarse_ch_selected@.take(i as int),
            decreases coarse_ch_selected@.len() - i,
        {
            selected.push(coarse_ch_selected[i]);
            assert(coarse_ch_selected@.take(i + 1) =~= coarse_ch_selected@.take(i as int).push(
                coarse_ch_selected@[i as int],
            ));
            i += 1;
        }
        assert(coarse_ch_selected@.take(i as int) =~= coarse_ch_selected@);
        Station { nants, ncoarse_ch, nfine_per_coarse: nfine_ch, coarse_ch_selected: selected }
    }

    /// Makes the station that `cfg` describes, given the numbers of
    /// coefficients of the two prototype filters that were designed for it.
    ///
    /// The coarse channels to split are the channels of the selected ranges,
    /// range after range; none occurs twice.  The station is made exactly if
    /// both filters have the number of coefficients that the configuration
    /// calls for; the first stage's filter is looked at first.
    pub fn from_cfg(
        cfg: &StationCfg,
        coarse_coeff_len: usize,
        fine_coeff_len: usize,
    ) -> (r: Result<Station, StationError>)
        requires
            cfg.wf(),
        ensures
            match r {
                Ok(s) => {
                    &&& coarse_coeff_len == cfg.spec_coarse_coeff_len()
                    &&& fine_coeff_len == cfg.spec_fine_coeff_len()
                    &&& s.wf()
                    &&& s@ == station_of_cfg(*cfg)
                    &&& s@.coarse_ch_selected.no_duplicates()
                },
                Err(StationError::CoarseCoeffCount) => coarse_coeff_len
                    != cfg.spec_coarse_coeff_len(),
                Err(StationError::FineCoeffCount) => {
                    &&& coarse_coeff_len == cfg.spec_coarse_coeff_len()
                    &&& fine_coeff_len != cfg.spec_fine_coeff_len()
                },
            },
    {
        let coarse_ok: bool = match cfg.coarse_pfb.tap_per_ch.checked_mul(cfg.coarse_pfb.nch) {
            Some(n) => n == coarse_coeff_len,
            None => false,
        };
        if !coarse_ok {
            return Err(StationError::CoarseCoeffCount);
        }
        let fine_ok: bool = match cfg.fine_pfb.tap_per_ch.checked_mul(cfg.fine_pfb.nch) {
            Some(n) => match n.checked_mul(2) {
                Some(m) => m == fine_coeff_len,
                None => false,
            },
            None => false,
        };
        if !fine_ok {
            return Err(StationError::FineCoeffCount);
        }
        let ranges: &Vec<(usize, usize)> = &cfg.selected_coarse_ch;
        let mut selected: Vec<usize> = Vec::new();
        let mut i: usize = 0;
        while i < ranges.len()
            invariant
                i <= ranges@.len(),
                selected@ == flatten_ranges(ranges@.take(i as int)),
            decreases ranges@.len() - i,
        {
            let (begin, end): (usize, usize) = ranges[i];
            let ghost head: Seq<usize> = selected@;
            let mut c: usize = begin;
            while c < end
                invariant
                    begin <= c,
                    begin < end ==> c <= end,
                    begin >= end ==> c == begin,
                    selected@ == head + range_channels((begin, c)),
                decreases end - c,
            {
                selected.push(c);
                assert(range_channels((begin, (c + 1) as usize)) =~= range_channels(
                    (begin, c),
                ).push(c));
                c += 1;
            }
            proof {
                let next = ranges@.take(i + 1);
                assert(next.drop_last() =~= ranges@.take(i as int));
                assert(next.last() == (begin, end));
                assert(range_channels((begin, c)) =~= range_channels((begin, end)));
            }
            i += 1;
        }
        proof {
            assert(ranges@.take(i as int) =~= ranges@);
            lemma_flatten_no_duplicates(ranges@);
            assert forall|k: int| 0 <= k < selected@.len() implies #[trigger] selected@[k]
                < cfg.coarse_pfb.nch by {
                lemma_flatten_contains(ranges@, selected@[k]);
                assert(selected@.contains(selected@[k]));
                let a = choose|a: int|
                    0 <= a < ranges@.len() && #[trigger] range_contains(
                        ranges@[a],
                        selected@[k] as int,
                    );
                assert(range_contains(cfg.selected_coarse_ch@[a], selected@[k] as int));
            }
        }
        Ok(
            Station {
                nants: cfg.nants,
                ncoarse_ch: cfg.coarse_pfb.nch,
                nfine_per_coarse: cfg.fine_pfb.nch,
                coarse_ch_selected: selected,
            },
        )
    }

    /// The number of antennas.
    pub fn nants(&self) -> (n: usize)
        ensures
            n == self@.nants,
    {
        self.nants
    }

    /// The number of coarse channels.
    pub fn ncoarse_ch(&self) -> (n: usize)
        ensures
            n == self@.ncoarse_ch,
    {
        self.ncoarse_ch
    }

    /// The number of fine channels that each selected coarse channel is split
    /// into.
    pub fn nfine_per_coarse(&self) -> (n: usize)
        ensures
            n == self@.nfine_per_coarse,
    {
        self.nfine_per_coarse
    }

    /// The channel count of the second stage's channelizer, which makes two
    /// channels for each one that it keeps.
    pub fn fine_pfb_nch(&self) -> (n: usize)
        requires
            self.wf(),
        ensures
            n == 2 * self@.nfine_per_coarse,
    {
        2 * self.nfine_per_coarse
    }

    /// The coarse channels that the second stage splits, in the order of its
    /// output.
    pub fn coarse_ch_selected(&self) -> (sel: &[usize])
        ensures
            sel@ == self@.coarse_ch_selected,
    {
        self.coarse_ch_selected.as_slice()
    }

    /// The centre frequencies of the coarse channels `ch`, in order: entry `i`
    /// is the signed bin of `ch[i]` over the number of coarse channels.
    pub fn coarse_ch_freq_in_fs(&self, ch: &[usize]) -> (f: Vec<Freq>)
        requires
            self.wf(),
            forall|i: int| 0 <= i < ch@.len() ==> #[trigger] ch@[i] <= i64::MAX,
        ensures
            ratios(f@) == self@.coarse_freqs(ch@),
            proper(f@),
    {
        let nch: usize = self.ncoarse_ch;
        let mut f: Vec<Freq> = Vec::new();
        let mut i: usize = 0;
        while i < ch.len()
            invariant
                i <= ch@.len(),
                1 <= nch <= i64::MAX,
                forall|a: int| 0 <= a < ch@.len() ==> #[trigger] ch@[a] <= i64::MAX,
                f@.len() == i,
                ratios(f@) == coarse_table(ch@, nch as int).take(i as int),
                proper(f@),
            decreases ch@.len() - i,
        {
            f.push(coarse_freq(ch[i], nch));
            assert(ratios(f@) =~= coarse_table(ch@, nch as int).take(i + 1));
            i += 1;
        }
        assert(ratios(f@) =~= coarse_table(ch@, nch as int));
        f
    }

    /// `n` evenly spaced frequencies across each selected coarse channel,
    /// channel after channel and ascending within each.
    pub(crate) fn grid(&self, n: usize) -> (f: Vec<Freq>)
        requires
            self.wf(),
            2 * n * self@.ncoarse_ch <= i64::MAX,
        ensures
            ratios(f@) == self@.grid(n as int),
            proper(f@),
    {
        let nch: usize = self.ncoarse_ch;
        let nsel: usize = self.coarse_ch_selected.len();
        let ghost sel: Seq<usize> = self.coarse_ch_selected@;
        let ghost table: Seq<Ratio> = fine_table(sel, nch as int, n as int);
        let mut f: Vec<Freq> = Vec::new();
        let mut j: usize = 0;
        while j < nsel
            invariant
                j <= nsel,
                nsel == sel.len(),
                sel == self.coarse_ch_selected@,
                nch == self.ncoarse_ch,
                self.wf(),
                2 * n * nch <= i64::MAX,
                table == fine_table(sel, nch as int, n as int),
                f@.len() == j * n,
                ratios(f@) == table.take(j * n),
                proper(f@),
            decreases nsel - j,
        {
            let c: usize = self.coarse_ch_selected[j];
            assert(c == self@.coarse_ch_selected[j as int]);
            let mut k: usize = 0;
            while k < n
                invariant
                    k <= n,
                    j < nsel,
                    nsel == sel.len(),
                    c == sel[j as int],
                    c < nch,
                    2 * n * nch <= i64::MAX,
                    table == fine_table(sel, nch as int, n as int),
                    f@.len() == j * n + k,
                    ratios(f@) == table.take(j * n + k),
                    proper(f@),
                decreases n - k,
            {
                proof {
                    lemma_fundamental_div_mod_converse(j * n + k, n as int, j as int, k as int);
                    assert(j * n + k < sel.len() * n) by (nonlinear_arith)
                        requires
                            0 <= k < n,
                            0 <= j < sel.len(),
                    ;
                }
                f.push(fine_freq(c, nch, k, n));
                assert(ratios(f@) =~= table.take(j * n + k + 1));
                k += 1;
            }
            assert((j + 1) * n == j * n + n) by (nonlinear_arith);
            j += 1;
        }
        assert(table.take(nsel * n) =~= table);
        f
    }

    /// The centre frequencies of the fine channels, in the order of the second
    /// stage's output: for each selected coarse channel of centre `fc`, the
    /// frequencies `fc + (k - (n - 1) / 2) / n * spacing` for `k` from `0` up
    /// to `n`, the number of fine channels per coarse channel, where `spacing`
    /// is the width of a coarse channel.
    pub fn fine_ch_freq_in_fs(&self) -> (f: Vec<Freq>)
        requires
            self.wf(),
        ensures
            ratios(f@) == self@.fine_freqs(),
            proper(f@),
    {
        self.grid(self.nfine_per_coarse)
    }

    /// For each fine channel, in the order of the second stage's output, the
    /// centre frequency of the coarse channel that it was split from.
    pub fn coarse_freq_of_fine_ch_in_fs(&self) -> (f: Vec<Freq>)
        requires
            self.wf(),
        ensures
            ratios(f@) == self@.parent_freqs(),
            proper(f@),
    {
        let nch: usize = self.ncoarse_ch;
        let n: usize = self.nfine_per_coarse;
        let nsel: usize = self.coarse_ch_selected.len();
        let ghost sel: Seq<usize> = self.coarse_ch_selected@;
        let ghost table: Seq<Ratio> = parent_table(sel, nch as int, n as int);
        let mut f: Vec<Freq> = Vec::new();
        let mut j: usize = 0;
        while j < nsel
            invariant
                j <= nsel,
                nsel == sel.len(),
                sel == self.coarse_ch_selected@,
                self.wf(),
                nch == self.ncoarse_ch,
                nch <= i64::MAX,
                table == parent_table(sel, nch as int, n as int),
                f@.len() == j * n,
                ratios(f@) == table.take(j * n),
                proper(f@),
            decreases nsel - j,
        {
            let c: usize = self.coarse_ch_selected[j];
            assert(c == self@.coarse_ch_selected[j as int]);
            let mut k: usize = 0;
            while k < n
                invariant
                    k <= n,
                    j < nsel,
                    nsel == sel.len(),
                    c == sel[j as int],
                    c < nch,
                    nch <= i64::MAX,
                    table == parent_table(sel, nch as int, n as int),
                    f@.len() == j * n + k,
                    ratios(f@) == table.take(j * n + k),
                    proper(f@),
                decreases n - k,
            {
                proof {
                    lemma_fundamental_div_mod_converse(j * n + k, n as int, j as int, k as int);
                    assert(j * n + k < sel.len() * n) by (nonlinear_arith)
                        requires
                            0 <= k < n,
                            0 <= j < sel.len(),
                    ;
                }
                f.push(coarse_freq(c, nch));
                assert(ratios(f@) =~= table.take(j * n + k + 1));
                k += 1;
            }
            assert((j + 1) * n == j * n + n) by (nonlinear_arith);
            j += 1;
        }
        assert(table.take(nsel * n) =~= table);
        f
    }

    /// The frequency pairs `(f, fc)` at which the gain of an ideal
    /// single-stage channelizer is evaluated: `f` holds the fine channels'
    /// centre frequencies, and each is referred to itself, so `fc` holds them
    /// too.
    pub fn gain_ideal_freqs(&self) -> (r: (Vec<Freq>, Vec<Freq>))
        requires
            self.wf(),
        ensures
            ratios(r.0@) == self@.fine_freqs(),
            ratios(r.1@) == self@.fine_freqs(),
            proper(r.0@),
            proper(r.1@),
    {
        (self.fine_ch_freq_in_fs(), self.fine_ch_freq_in_fs())
    }

    /// The frequency pairs `(f, fc)` at which the gain of the two-stage system
    /// is evaluated: `f` holds the fine channels' centre frequencies, and each
    /// is referred to the centre of the coarse channel that it was split from,
    /// which `fc` holds.
    pub fn gain_2stage_freqs(&self) -> (r: (Vec<Freq>, Vec<Freq>))
        requires
            self.wf(),
        ensures
            ratios(r.0@) == self@.fine_freqs(),
            ratios(r.1@) == self@.parent_freqs(),
            proper(r.0@),
            proper(r.1@),
    {
        (self.fine_ch_freq_in_fs(), self.coarse_freq_of_fine_ch_in_fs())
    }

    /// Tells whether each selected coarse channel can be sampled at `subdiv`
    /// points per fine channel: see [`StationView::grid_fits`].
    pub fn can_subdivide(&self, subdiv: usize) -> (b: bool)
        requires
            self.wf(),
        ensures
            b == self@.grid_fits(subdiv as int),
    {
        match self.nfine_per_coarse.checked_mul(subdiv) {
            Some(n) => {
                assert(n * self.ncoarse_ch <= 0xffff_ffff_ffff_ffff * 0xffff_ffff_ffff_ffff)
                    by (nonlinear_arith)
                    requires
                        0 <= n <= 0xffff_ffff_ffff_ffff,
                        0 <= self.ncoarse_ch <= 0xffff_ffff_ffff_ffff,
                ;
                let p: u128 = (n as u128) * (self.ncoarse_ch as u128);
                assert(2 * n * self.ncoarse_ch == 2 * (n * self.ncoarse_ch)) by (nonlinear_arith);
                p <= 0x3fff_ffff_ffff_ffff
            },
            None => false,
        }
    }
}

/// With one fine channel per coarse channel the two-stage system loses
/// nothing against the ideal one: the two gains are evaluated at the same
/// frequencies, and every reference frequency of the two-stage system has the
/// value of the ideal system's, which is the fine channel's own frequency.
pub proof fn lemma_two_stage_is_ideal_with_single_fine(s: StationView)
    requires
        s.wf(),
        s.nfine_per_coarse == 1,
    ensures
        s.fine_freqs().len() == s.coarse_ch_selected.len(),
        s.parent_freqs().len() == s.coarse_ch_selected.len(),
        forall|i: int|
            0 <= i < s.coarse_ch_selected.len() ==> (#[trigger] s.parent_freqs()[i]).same_value(
                s.fine_freqs()[i],
            ),
{
    lemma_single_fine_is_parent(s.coarse_ch_selected, s.ncoarse_ch as int);
    assert forall|i: int| 0 <= i < s.coarse_ch_selected.len() implies (
    #[trigger] s.parent_freqs()[i]).same_value(s.fine_freqs()[i]) by {
        assert(fine_table(s.coarse_ch_selected, s.ncoarse_ch as int, 1)[i].same_value(
            parent_table(s.coarse_ch_selected, s.ncoarse_ch as int, 1)[i],
        ));
    }
}

/// A station made from a configuration has no two fine channels at the same
/// frequency, and more generally no two points of a grid across its selected
/// channels: the entries of the table differ wherever no coarse channel is
/// selected twice.
pub proof fn lemma_grid_distinct(s: StationView, n: int, i: int, j: int)
    requires
        s.wf(),
        s.coarse_ch_selected.no_duplicates(),
        n >= 1,
        0 <= i < j < s.grid(n).len(),
    ensures
        s.grid(n)[i].den == s.grid(n)[j].den,
        s.grid(n)[i].num != s.grid(n)[j].num,
{
    lemma_fine_table_distinct(s.coarse_ch_selected, s.ncoarse_ch as int, n, i, j);
}

} // verus!
