//! Station configuration: the sizes of the two channelizers, the number of
//! antennas and the coarse channels that the second stage splits further.

use vstd::prelude::*;

verus! {

/// Size of one channelizer: how many channels it has and how many filter taps
/// serve each channel.
#[derive(Clone, Copy, Debug, PartialEq, Eq, Structural)]
pub struct PfbCfg {
    pub nch: usize,
    pub tap_per_ch: usize,
}

/// Size of the fractional-delay filter: the largest delay it can apply, in
/// samples, and half the number of its taps.
#[derive(Clone, Copy, Debug, PartialEq, Eq, Structural)]
pub struct DelayerCfg {
    pub max_delay: usize,
    pub half_tap: usize,
}

/// The integer part of a station's configuration.
///
/// `selected_coarse_ch` lists half-open ranges `(begin, end)` of coarse
/// channel indices; a range with `begin >= end` selects nothing.
#[derive(Debug)]
pub struct StationCfg {
    /// Number of antennas.
    pub nants: usize,
    pub coarse_pfb: PfbCfg,
    pub delayer: DelayerCfg,
    pub selected_coarse_ch: Vec<(usize, usize)>,
    pub fine_pfb: PfbCfg,
}

/// Channel `c` lies in the half-open range `r`.
pub open spec fn range_contains(r: (usize, usize), c: int) -> bool {
    r.0 <= c < r.1
}

/// The product of the widths `end - begin` of the ranges `r`.
pub open spec fn width_product(r: Seq<(usize, usize)>) -> int
    decreases r.len(),
{
    if r.len() == 0 {
        1
    } else {
        width_product(r.drop_last()) * (r.last().1 - r.last().0)
    }
}

/// The channels of the ranges `r`, range after range and ascending within each.
pub open spec fn flatten_ranges(r: Seq<(usize, usize)>) -> Seq<usize>
    decreases r.len(),
{
    if r.len() == 0 {
        Seq::empty()
    } else {
        flatten_ranges(r.drop_last()) + range_channels(r.last())
    }
}

/// The channels of one range, ascending.
pub open spec fn range_channels(r: (usize, usize)) -> Seq<usize> {
    Seq::new(
        if r.0 < r.1 {
            (r.1 - r.0) as nat
        } else {
            0
        },
        |k: int| (r.0 + k) as usize,
    )
}

/// The channel counts are small enough for the machine: the second stage,
/// which makes two channels for each one it keeps, has a channel count that
/// fits in a `usize`, and the coarse channel count and twice the product of
/// the two counts fit in an `i64`, so that every frequency of the station is a
/// fraction of two `i64`.
pub open spec fn sizes_fit(ncoarse: int, nfine: int) -> bool {
    &&& 2 * nfine <= usize::MAX
    &&& ncoarse <= i64::MAX
    &&& 2 * nfine * ncoarse <= i64::MAX
}

/// Tells whether [`sizes_fit`] holds of two channel counts.
pub fn check_sizes_fit(ncoarse: usize, nfine: usize) -> (b: bool)
    ensures
        b == sizes_fit(ncoarse as int, nfine as int),
{
    assert(nfine * ncoarse <= 0xffff_ffff_ffff_ffff * 0xffff_ffff_ffff_ffff) by (nonlinear_arith)
        requires
            0 <= nfine <= 0xffff_ffff_ffff_ffff,
            0 <= ncoarse <= 0xffff_ffff_ffff_ffff,
    ;
    let p: u128 = (nfine as u128) * (ncoarse as u128);
    assert(2 * nfine * ncoarse == 2 * (nfine * ncoarse)) by (nonlinear_arith);
    nfine <= usize::MAX / 2 && (ncoarse as u128) <= 0x7fff_ffff_ffff_ffff && p
        <= 0x3fff_ffff_ffff_ffff
}

/// A channel is among the flattened channels exactly if one of the ranges
/// contains it.
pub proof fn lemma_flatten_contains(r: Seq<(usize, usize)>, c: usize)
    ensures
        flatten_ranges(r).contains(c) <==> exists|i: int|
            0 <= i < r.len() && #[trigger] range_contains(r[i], c as int),
    decreases r.len(),
{
    if r.len() > 0 {
        let init = r.drop_last();
        let last = range_channels(r.last());
        lemma_flatten_contains(init, c);
        if flatten_ranges(r).contains(c) {
            let k = choose|k: int| 0 <= k < flatten_ranges(r).len() && flatten_ranges(r)[k] == c;
            if k < flatten_ranges(init).len() {
                assert(flatten_ranges(init)[k] == c);
                let i = choose|i: int|
                    0 <= i < init.len() && #[trigger] range_contains(init[i], c as int);
                assert(range_contains(r[i], c as int));
            } else {
                assert(last[k - flatten_ranges(init).len()] == c);
                assert(range_contains(r[r.len() - 1], c as int));
            }
        }
        if exists|i: int| 0 <= i < r.len() && #[trigger] range_contains(r[i], c as int) {
            let i = choose|i: int| 0 <= i < r.len() && #[trigger] range_contains(r[i], c as int);
            if i < init.len() {
                assert(range_contains(init[i], c as int));
                let k = choose|k: int|
                    0 <= k < flatten_ranges(init).len() && flatten_ranges(init)[k] == c;
                assert(flatten_ranges(r)[k] == c);
            } else {
                let k = c - r.last().0;
                assert(last[k] == c);
                assert(flatten_ranges(r)[flatten_ranges(init).len() + k] == c);
            }
        }
    }
}

/// Ranges of which no two share a channel flatten to a list in which no
/// channel occurs twice.
pub proof fn lemma_flatten_no_duplicates(r: Seq<(usize, usize)>)
    requires
        forall|i: int, j: int, c: int|
            0 <= i < j < r.len() && #[trigger] range_contains(r[i], c)
                ==> !#[trigger] range_contains(r[j], c),
    ensures
        flatten_ranges(r).no_duplicates(),
    decreases r.len(),
{
    if r.len() > 0 {
        let init = r.drop_last();
        let head = flatten_ranges(init);
        let last = range_channels(r.last());
        assert forall|i: int, j: int, c: int|
            0 <= i < j < init.len() && #[trigger] range_contains(
                init[i],
                c,
            ) implies !#[trigger] range_contains(init[j], c) by {
            assert(range_contains(r[i], c));
            assert(init[j] == r[j]);
        }
        lemma_flatten_no_duplicates(init);
        assert forall|a: int, b: int| 0 <= a < head.len() && 0 <= b < last.len() implies head[a]
            != last[b] by {
            if head[a] == last[b] {
                let c = head[a];
                lemma_flatten_contains(init, c);
                assert(head.contains(c));
                let i = choose|i: int|
                    0 <= i < init.len() && #[trigger] range_contains(init[i], c as int);
                assert(range_contains(r[i], c as int));
                assert(range_contains(r[r.len() - 1], c as int));
            }
        }
        vstd::seq_lib::lemma_no_dup_in_concat(head, last);
    }
}

/// A range of zero width makes the product of the widths zero.
proof fn lemma_width_product_zero(r: Seq<(usize, usize)>, i: int)
    requires
        0 <= i < r.len(),
        r[i].1 - r[i].0 == 0,
    ensures
        width_product(r) == 0,
    decreases r.len(),
{
    if i == r.len() - 1 {
        assert(width_product(r.drop_last()) * 0 == 0);
    } else {
        lemma_width_product_zero(r.drop_last(), i);
        assert(0 * (r.last().1 - r.last().0) == 0);
    }
}

/// Where no range is narrower than one channel, the product over a prefix of
/// the ranges is at least one and at most the product over all of them.
proof fn lemma_width_product_prefix(r: Seq<(usize, usize)>, i: int)
    requires
        0 <= i <= r.len(),
        forall|j: int| 0 <= j < r.len() ==> (#[trigger] r[j]).1 - r[j].0 >= 1,
    ensures
        1 <= width_product(r.take(i)) <= width_product(r),
    decreases r.len() - i,
{
    if i == r.len() {
        assert(r.take(i) =~= r);
        lemma_width_product_positive(r);
    } else {
        lemma_width_product_prefix(r, i + 1);
        let next = r.take(i + 1);
        assert(next.drop_last() =~= r.take(i));
        assert(next.last() == r[i]);
        lemma_width_product_positive(r.take(i));
        let p = width_product(r.take(i));
        let w = r[i].1 - r[i].0;
        assert(p <= p * w) by (nonlinear_arith)
            requires
                p >= 1,
                w >= 1,
        ;
    }
}

/// Where no range is narrower than one channel, the product of the widths is
/// at least one.
proof fn lemma_width_product_positive(r: Seq<(usize, usize)>)
    requires
        forall|j: int| 0 <= j < r.len() ==> (#[trigger] r[j]).1 - r[j].0 >= 1,
    ensures
        width_product(r) >= 1,
    decreases r.len(),
{
    if r.len() > 0 {
        lemma_width_product_positive(r.drop_last());
        let p = width_product(r.drop_last());
        let w = r.last().1 - r.last().0;
        assert(p * w >= 1) by (nonlinear_arith)
            requires
                p >= 1,
                w >= 1,
        ;
    }
}

impl StationCfg {
    /// Every selected channel is a coarse channel of the station.
    pub open spec fn ranges_in_bounds(&self) -> bool {
        forall|i: int, c: int|
            0 <= i < self.selected_coarse_ch@.len() && #[trigger] range_contains(
                self.selected_coarse_ch@[i],
                c,
            ) ==> c < self.coarse_pfb.nch
    }

    /// No channel lies in two of the ranges.
    pub open spec fn ranges_disjoint(&self) -> bool {
        forall|i: int, j: int, c: int|
            0 <= i < j < self.selected_coarse_ch@.len() && #[trigger] range_contains(
                self.selected_coarse_ch@[i],
                c,
            ) ==> !#[trigger] range_contains(self.selected_coarse_ch@[j], c)
    }

    /// No range ends before it begins.
    pub open spec fn ranges_ordered(&self) -> bool {
        forall|i: int|
            0 <= i < self.selected_coarse_ch@.len() ==> (#[trigger] self.selected_coarse_ch@[i]).0
                <= self.selected_coarse_ch@[i].1
    }

    /// The configuration describes a station: there is at least one coarse
    /// channel, the selected ranges lie within the coarse channels and do not
    /// overlap, and the channel counts are small enough for the station's
    /// frequencies to be fractions of two `i64`.
    pub open spec fn wf(&self) -> bool {
        &&& self.coarse_pfb.nch >= 1
        &&& self.ranges_in_bounds()
        &&& self.ranges_disjoint()
        &&& sizes_fit(self.coarse_pfb.nch as int, self.fine_pfb.nch as int)
    }

    /// The number of coefficients of the first stage's prototype filter: one
    /// for each tap of each channel.
    pub open spec fn spec_coarse_coeff_len(&self) -> int {
        self.coarse_pfb.tap_per_ch * self.coarse_pfb.nch
    }

    /// The number of coefficients of the second stage's prototype filter:
    /// two for each tap of each channel.
    pub open spec fn spec_fine_coeff_len(&self) -> int {
        self.fine_pfb.tap_per_ch * self.fine_pfb.nch * 2
    }

    /// The product of the widths of the selected ranges.
    pub open spec fn spec_nselected_coarse_ch(&self) -> int {
        width_product(self.selected_coarse_ch@)
    }

    /// The fine channel count times the product of the widths of the selected
    /// ranges.
    pub open spec fn spec_total_nfine_ch(&self) -> int {
        self.fine_pfb.nch * self.spec_nselected_coarse_ch()
    }

    /// The two counts of this configuration can be computed: no range ends
    /// before it begins, and both counts fit in a `usize`.
    pub open spec fn countable(&self) -> bool {
        &&& self.ranges_ordered()
        &&& self.spec_nselected_coarse_ch() <= usize::MAX
        &&& self.spec_total_nfine_ch() <= usize::MAX
    }

    /// Tells whether the configuration is well formed.
    pub fn is_wf(&self) -> (b: bool)
        ensures
            b == self.wf(),
    {
        if self.coarse_pfb.nch < 1 || !check_sizes_fit(self.coarse_pfb.nch, self.fine_pfb.nch) {
            return false;
        }
        let n: usize = self.selected_coarse_ch.len();
        let mut i: usize = 0;
        while i < n
            invariant
                i <= n,
                n == self.selected_coarse_ch@.len(),
                forall|a: int, c: int|
                    0 <= a < i && #[trigger] range_contains(self.selected_coarse_ch@[a], c) ==> c
                        < self.coarse_pfb.nch,
                forall|a: int, b: int, c: int|
                    0 <= a < i && a < b < n && #[trigger] range_contains(
                        self.selected_coarse_ch@[a],
                        c,
                    ) ==> !#[trigger] range_contains(self.selected_coarse_ch@[b], c),
            decreases n - i,
        {
            let (bi, ei): (usize, usize) = self.selected_coarse_ch[i];
            if bi < ei {
                if ei > self.coarse_pfb.nch {
                    assert(range_contains(self.selected_coarse_ch@[i as int], ei - 1));
                    return false;
                }
                let mut j: usize = i + 1;
                while j < n
                    invariant
                        i < j <= n,
                        n == self.selected_coarse_ch@.len(),
                        self.selected_coarse_ch@[i as int] == (bi, ei),
                        bi < ei,
                        forall|b: int, c: int|
                            i < b < j && range_contains(self.selected_coarse_ch@[i as int], c)
                                ==> !#[trigger] range_contains(self.selected_coarse_ch@[b], c),
                    decreases n - j,
                {
                    let (bj, ej): (usize, usize) = self.selected_coarse_ch[j];
                    if bj < ej && bj < ei && bi < ej {
                        let ghost c: int = if bi <= bj {
                            bj as int
                        } else {
                            bi as int
                        };
                        assert(range_contains(self.selected_coarse_ch@[i as int], c));
                        assert(range_contains(self.selected_coarse_ch@[j as int], c));
                        return false;
                    }
                    j += 1;
                }
            }
            i += 1;
        }
        true
    }

    /// The product of the widths if it can be computed: `None` where a range
    /// ends before it begins or the product does not fit in a `usize`.
    fn checked_width_product(&self) -> (p: Option<usize>)
        ensures
            match p {
                Some(v) => self.ranges_ordered() && v == self.spec_nselected_coarse_ch(),
                None => !self.ranges_ordered() || self.spec_nselected_coarse_ch() > usize::MAX,
            },
    {
        let n: usize = self.selected_coarse_ch.len();
        let mut has_empty: bool = false;
        let mut i: usize = 0;
        while i < n
            invariant
                i <= n,
                n == self.selected_coarse_ch@.len(),
                forall|a: int|
                    0 <= a < i ==> (#[trigger] self.selected_coarse_ch@[a]).0
                        <= self.selected_coarse_ch@[a].1,
                has_empty ==> self.spec_nselected_coarse_ch() == 0,
                !has_empty ==> forall|a: int|
                    0 <= a < i ==> (#[trigger] self.selected_coarse_ch@[a]).1
                        - self.selected_coarse_ch@[a].0 >= 1,
            decreases n - i,
        {
            let (b, e): (usize, usize) = self.selected_coarse_ch[i];
            if b > e {
                return None;
            }
            if b == e {
                proof {
                    lemma_width_product_zero(self.selected_coarse_ch@, i as int);
                }
                has_empty = true;
            }
            i += 1;
        }
        if has_empty {
            return Some(0);
        }
        let mut p: usize = 1;
        let mut k: usize = 0;
        while k < n
            invariant
                k <= n,
                n == self.selected_coarse_ch@.len(),
                forall|a: int|
                    0 <= a < n ==> (#[trigger] self.selected_coarse_ch@[a]).1
                        - self.selected_coarse_ch@[a].0 >= 1,
                p == width_product(self.selected_coarse_ch@.take(k as int)),
            decreases n - k,
        {
            let (b, e): (usize, usize) = self.selected_coarse_ch[k];
            proof {
                let next = self.selected_coarse_ch@.take(k + 1);
                assert(next.drop_last() =~= self.selected_coarse_ch@.take(k as int));
                assert(next.last() == self.selected_coarse_ch@[k as int]);
                lemma_width_product_prefix(self.selected_coarse_ch@, k + 1);
            }
            match p.checked_mul(e - b) {
                Some(q) => {
                    p = q;
                },
                None => {
                    return None;
                },
            }
            k += 1;
        }
        assert(self.selected_coarse_ch@.take(n as int) =~= self.selected_coarse_ch@);
        Some(p)
    }

    /// The channel count of the second stage's channelizer, which makes two
    /// channels for each one that it keeps.
    pub fn fine_pfb_nch(&self) -> (n: usize)
        requires
            self.wf(),
        ensures
            n == 2 * self.fine_pfb.nch,
    {
        2 * self.fine_pfb.nch
    }

    /// Tells whether the two counts of this configuration can be computed.
    pub fn is_countable(&self) -> (b: bool)
        ensures
            b == self.countable(),
    {
        match self.checked_width_product() {
            Some(p) => self.fine_pfb.nch.checked_mul(p).is_some(),
            None => false,
        }
    }

    /// The product of the widths of the selected ranges, which for a single
    /// range is the number of selected coarse channels.
    pub fn nselected_coarse_ch(&self) -> (n: usize)
        requires
            self.ranges_ordered(),
            self.spec_nselected_coarse_ch() <= usize::MAX,
        ensures
            n == self.spec_nselected_coarse_ch(),
    {
        self.checked_width_product().unwrap()
    }

    /// The number of fine channels per selected coarse channel times
    /// [`Self::nselected_coarse_ch`].
    pub fn total_nfine_ch(&self) -> (n: usize)
        requires
            self.countable(),
        ensures
            n == self.spec_total_nfine_ch(),
    {
        self.fine_pfb.nch * self.nselected_coarse_ch()
    }
}

} // verus!
