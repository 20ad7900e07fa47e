//! Frequencies as exact fractions of the sample rate.

use vstd::prelude::*;

verus! {

/// A fraction of two integers, the mathematical value of a [`Freq`].
pub struct Ratio {
    pub num: int,
    pub den: int,
}

impl Ratio {
    /// Two fractions with non-zero denominators stand for the same number.
    pub open spec fn same_value(self, other: Ratio) -> bool {
        self.num * other.den == other.num * self.den
    }

    /// The fraction of opposite sign.
    pub open spec fn neg(self) -> Ratio {
        Ratio { num: -self.num, den: self.den }
    }

    /// The sum of two fractions, over the product of their denominators.
    pub open spec fn plus(self, other: Ratio) -> Ratio {
        Ratio { num: self.num * other.den + other.num * self.den, den: self.den * other.den }
    }
}

/// A frequency in cycles per sample: the fraction `num / den` of the sample
/// rate.  Fractions are not reduced.
#[derive(Clone, Copy, Debug, PartialEq, Eq, Structural)]
pub struct Freq {
    pub num: i64,
    pub den: i64,
}

impl View for Freq {
    type V = Ratio;

    open spec fn view(&self) -> Ratio {
        Ratio { num: self.num as int, den: self.den as int }
    }
}

/// The mathematical values of a list of frequencies.
pub open spec fn ratios(s: Seq<Freq>) -> Seq<Ratio> {
    s.map_values(|f: Freq| f@)
}

/// Every frequency of the list has a positive denominator.
pub open spec fn proper(s: Seq<Freq>) -> bool {
    forall|i: int| 0 <= i < s.len() ==> (#[trigger] s[i]).den > 0
}

/// The signed bin of channel `c` out of `nch`, by the centred convention: the
/// lower half of the channels keep their index, the upper half wrap around to
/// negative bins.
pub open spec fn centered_bin(c: int, nch: int) -> int {
    if c <= (nch - 1) / 2 {
        c
    } else {
        c - nch
    }
}

/// The centre frequency of coarse channel `c` out of `nch`: its signed bin
/// times the channel spacing `1 / nch`.
pub open spec fn coarse_ratio(c: int, nch: int) -> Ratio {
    Ratio { num: centered_bin(c, nch), den: nch }
}

/// Point `k` out of `n` evenly spaced points across coarse channel `c` out of
/// `nch`.  The points are centred on the channel:
/// `centre + (k - (n - 1) / 2) / n * spacing`, with `spacing = 1 / nch`, which
/// over the common denominator `2 * n * nch` is the fraction below.
pub open spec fn fine_ratio(c: int, nch: int, k: int, n: int) -> Ratio {
    Ratio { num: 2 * n * centered_bin(c, nch) + 2 * k - (n - 1), den: 2 * n * nch }
}

/// The centre frequencies of the coarse channels `ch`, in order.
pub open spec fn coarse_table(ch: Seq<usize>, nch: int) -> Seq<Ratio> {
    Seq::new(ch.len(), |i: int| coarse_ratio(ch[i] as int, nch))
}

/// `n` points across each of the coarse channels `sel`: entry `i` is point
/// `i % n` of channel `sel[i / n]`.
pub open spec fn fine_table(sel: Seq<usize>, nch: int, n: int) -> Seq<Ratio> {
    Seq::new(
        (sel.len() * n) as nat,
        |i: int| fine_ratio(sel[i / n] as int, nch, i % n, n),
    )
}

/// For each of the `n` points across each of the coarse channels `sel`, the
/// centre frequency of the coarse channel that the point lies in.
pub open spec fn parent_table(sel: Seq<usize>, nch: int, n: int) -> Seq<Ratio> {
    Seq::new((sel.len() * n) as nat, |i: int| coarse_ratio(sel[i / n] as int, nch))
}

/// The frequencies of the outputs of a channelizer of `n` channels, in the
/// order of its output: output `k` lies at the centre frequency of channel
/// `k` out of `n`.
pub open spec fn channel_table(n: int) -> Seq<Ratio> {
    Seq::new(n as nat, |k: int| coarse_ratio(k, n))
}

/// The frequency of each of the `n` outputs of a channelizer, in cycles per
/// sample and in the order of its output: first the channels from zero
/// upwards, then, from the middle on, the negative frequencies from the lowest
/// up to the one just below zero.
pub fn channel_freqs(n: usize) -> (f: Vec<Freq>)
    requires
        n <= i64::MAX,
    ensures
        ratios(f@) == channel_table(n as int),
        proper(f@),
{
    let mut f: Vec<Freq> = Vec::new();
    let mut k: usize = 0;
    while k < n
        invariant
            k <= n <= i64::MAX,
            f@.len() == k,
            ratios(f@) == channel_table(n as int).take(k as int),
            proper(f@),
        decreases n - k,
    {
        let num: i64 = if k <= (n - 1) / 2 {
            k as i64
        } else {
            k as i64 - n as i64
        };
        f.push(Freq { num, den: n as i64 });
        assert(ratios(f@) =~= channel_table(n as int).take(k + 1));
        k += 1;
    }
    assert(ratios(f@) =~= channel_table(n as int));
    f
}

/// Channel 0 lies at frequency zero.
pub proof fn lemma_coarse_zero(nch: int)
    requires
        nch >= 1,
    ensures
        coarse_ratio(0, nch) == (Ratio { num: 0, den: nch }),
{
}

/// The coarse frequencies are centred on zero: every channel lies in
/// `[-1/2, 1/2)`, a whole number of sample rates away from `c / nch`.
pub proof fn lemma_coarse_centered(c: int, nch: int)
    requires
        0 <= c < nch,
    ensures
        -nch <= 2 * centered_bin(c, nch) < nch,
        centered_bin(c, nch) == c || centered_bin(c, nch) == c - nch,
{
}

/// Coarse frequencies are antisymmetric: channels `c` and `nch - c` lie at
/// opposite frequencies, except where `c` is half the channel count.  There
/// the two are one channel, which lies at `-1/2`: the upper edge of the band
/// wraps around to the lower.
pub proof fn lemma_coarse_antisymmetric(c: int, nch: int)
    requires
        0 < c < nch,
    ensures
        2 * c != nch ==> coarse_ratio(nch - c, nch) == coarse_ratio(c, nch).neg(),
        2 * c == nch ==> coarse_ratio(c, nch).same_value(Ratio { num: -1, den: 2 }),
{
}

/// A point of the grid across a coarse channel is the channel's centre plus
/// `(k - (n - 1) / 2) / n` channel widths, which is `2 * k - (n - 1)` over
/// `2 * n * nch`.
pub proof fn lemma_fine_is_center_plus_offset(c: int, nch: int, k: int, n: int)
    requires
        nch >= 1,
        n >= 1,
    ensures
        fine_ratio(c, nch, k, n).same_value(
            coarse_ratio(c, nch).plus(Ratio { num: 2 * k - (n - 1), den: 2 * n * nch }),
        ),
{
    let bin = centered_bin(c, nch);
    let off = 2 * k - (n - 1);
    assert((2 * n * bin + off) * (nch * (2 * n * nch)) == (bin * (2 * n * nch) + off * nch) * (2
        * n * nch)) by (nonlinear_arith);
}

/// The grid across a coarse channel is evenly spaced, `1 / n` of a channel
/// width from point to point, and centred on the channel: points `k` and
/// `n - 1 - k` lie at equal distances on either side of the centre.
pub proof fn lemma_fine_grid_shape(c: int, nch: int, k: int, n: int)
    requires
        nch >= 1,
        n >= 1,
    ensures
        fine_ratio(c, nch, k + 1, n).den == fine_ratio(c, nch, k, n).den,
        fine_ratio(c, nch, k + 1, n).num == fine_ratio(c, nch, k, n).num + 2,
        fine_ratio(c, nch, k, n).num + fine_ratio(c, nch, n - 1 - k, n).num == 2 * (2 * n
            * centered_bin(c, nch)),
        (Ratio { num: 2 * n * centered_bin(c, nch), den: 2 * n * nch }).same_value(
            coarse_ratio(c, nch),
        ),
{
    let bin = centered_bin(c, nch);
    assert((2 * n * bin) * nch == bin * (2 * n * nch)) by (nonlinear_arith);
}

/// Every point of the grid across a coarse channel lies within the channel,
/// less than half a channel width from its centre: over the denominator
/// `2 * n * nch`, on which the centre is `2 * n` times the signed bin and half
/// a channel width is `n`.
pub proof fn lemma_fine_within_coarse(c: int, nch: int, k: int, n: int)
    requires
        0 <= k < n,
    ensures
        -n < fine_ratio(c, nch, k, n).num - 2 * n * centered_bin(c, nch) < n,
{
}

/// Two different points of the grids across the coarse channels lie at
/// different frequencies.
pub proof fn lemma_fine_distinct(c1: int, k1: int, c2: int, k2: int, nch: int, n: int)
    requires
        0 <= c1 < nch,
        0 <= c2 < nch,
        0 <= k1 < n,
        0 <= k2 < n,
        c1 != c2 || k1 != k2,
    ensures
        fine_ratio(c1, nch, k1, n).den == fine_ratio(c2, nch, k2, n).den,
        fine_ratio(c1, nch, k1, n).num != fine_ratio(c2, nch, k2, n).num,
{
    let b1 = centered_bin(c1, nch);
    let b2 = centered_bin(c2, nch);
    if c1 != c2 {
        assert(b1 != b2);
        assert(2 * n * b1 - 2 * n * b2 >= 2 * n || 2 * n * b1 - 2 * n * b2 <= -2 * n)
            by (nonlinear_arith)
            requires
                b1 != b2,
                n > 0,
        ;
    }
}

/// Where no coarse channel is selected twice, no two entries of the table of
/// the points across the selected channels hold the same frequency.
pub proof fn lemma_fine_table_distinct(sel: Seq<usize>, nch: int, n: int, i: int, j: int)
    requires
        sel.no_duplicates(),
        forall|a: int| 0 <= a < sel.len() ==> #[trigger] sel[a] < nch,
        n >= 1,
        0 <= i < j < fine_table(sel, nch, n).len(),
    ensures
        fine_table(sel, nch, n)[i].den == fine_table(sel, nch, n)[j].den,
        fine_table(sel, nch, n)[i].num != fine_table(sel, nch, n)[j].num,
{
    let len = sel.len() as int;
    assert(len * n >= 0) by (nonlinear_arith)
        requires
            len >= 0,
            n >= 1,
    ;
    vstd::arithmetic::div_mod::lemma_fundamental_div_mod(i, n);
    vstd::arithmetic::div_mod::lemma_fundamental_div_mod(j, n);
    vstd::arithmetic::div_mod::lemma_div_pos_is_pos(i, n);
    vstd::arithmetic::div_mod::lemma_div_pos_is_pos(j, n);
    assert(i / n < len && j / n < len) by (nonlinear_arith)
        requires
            0 <= i < len * n,
            0 <= j < len * n,
            n > 0,
            i == n * (i / n) + i % n,
            j == n * (j / n) + j % n,
            0 <= i % n < n,
            0 <= j % n < n,
    ;
    if i / n != j / n {
        assert(sel[i / n] != sel[j / n]);
    }
    lemma_fine_distinct(sel[i / n] as int, i % n, sel[j / n] as int, j % n, nch, n);
}

/// With one fine channel per coarse channel, every fine channel lies at the
/// centre of the coarse channel it was split from: the two tables hold the
/// same frequencies.
pub proof fn lemma_single_fine_is_parent(sel: Seq<usize>, nch: int)
    requires
        nch >= 1,
    ensures
        fine_table(sel, nch, 1).len() == sel.len(),
        parent_table(sel, nch, 1).len() == sel.len(),
        forall|i: int|
            0 <= i < sel.len() ==> (#[trigger] fine_table(sel, nch, 1)[i]).same_value(
                parent_table(sel, nch, 1)[i],
            ),
{
    assert forall|i: int| 0 <= i < sel.len() implies (#[trigger] fine_table(
        sel,
        nch,
        1,
    )[i]).same_value(parent_table(sel, nch, 1)[i]) by {
        let bin = centered_bin(sel[i] as int, nch);
        assert((2 * 1 * bin + 2 * 0 - (1 - 1)) * nch == bin * (2 * 1 * nch)) by (nonlinear_arith);
    }
}

} // verus!
