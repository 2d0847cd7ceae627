//! Difficulty shaping: thinning or densifying onsets per difficulty.

use vstd::prelude::*;
use vstd::arithmetic::div_mod::lemma_fundamental_div_mod_converse;
use crate::onset::non_decreasing;

verus! {

/// A gap (microseconds) between consecutive onsets longer than this gets a
/// midpoint onset on Expert.
pub const EXPERT_GAP_US: u64 = 500_000;

/// Expert onsets closer than this (microseconds) to the previous kept one are
/// dropped.
pub const EXPERT_MERGE_US: u64 = 50_000;

/// Chart difficulty. Each fixes how many onsets survive and the lane count.
#[derive(Clone, Copy, Debug, PartialEq, Eq, Structural)]
pub enum Difficulty {
    Easy,
    Normal,
    Hard,
    Expert,
}

impl Difficulty {
    pub open spec fn lanes_spec(&self) -> u8 {
        match self {
            Difficulty::Expert => 5,
            _ => 4,
        }
    }

    /// 4 lanes for Easy, Normal and Hard; 5 for Expert.
    pub fn lanes(&self) -> (r: u8)
        ensures
            r == self.lanes_spec(),
    {
        match self {
            Difficulty::Expert => 5,
            _ => 4,
        }
    }

    pub open spec fn name_spec(&self) -> Seq<char> {
        match self {
            Difficulty::Easy => "Easy"@,
            Difficulty::Normal => "Normal"@,
            Difficulty::Hard => "Hard"@,
            Difficulty::Expert => "Expert"@,
        }
    }

    /// The difficulty's display name.
    pub fn name(&self) -> (r: &'static str)
        ensures
            r@ == self.name_spec(),
    {
        match self {
            Difficulty::Easy => "Easy",
            Difficulty::Normal => "Normal",
            Difficulty::Hard => "Hard",
            Difficulty::Expert => "Expert",
        }
    }
}

/// How many of `n` onsets a reduction to `keep_percent` percent keeps:
/// `ceil(n * keep_percent / 100)`.
pub open spec fn keep_count(n: int, keep_percent: int) -> int {
    (n * keep_percent + 99) / 100
}

/// Index of the `j`-th kept onset: `ceil(j * n / keep)`, so kept indices are
/// spaced `n / keep` apart starting at 0.
pub open spec fn kept_index(j: int, n: int, keep: int) -> int {
    (j * n + keep - 1) / keep
}

/// Onsets with a midpoint inserted in every gap longer than `EXPERT_GAP_US`,
/// for the first `hi` onsets.
pub open spec fn with_midpoints(p: Seq<u64>, hi: int) -> Seq<u64>
    decreases hi,
{
    if hi <= 0 {
        Seq::empty()
    } else if hi == 1 {
        seq![p[0]]
    } else {
        let a = p[hi - 2];
        let b = p[hi - 1];
        let front = with_midpoints(p, hi - 1);
        if b - a > EXPERT_GAP_US {
            front.push(((a + b) / 2) as u64).push(b)
        } else {
            front.push(b)
        }
    }
}

/// The first `hi` values of `s`, each dropped when it lies within `gap` of the
/// last value kept.
pub open spec fn drop_close(s: Seq<u64>, gap: int, hi: int) -> Seq<u64>
    decreases hi,
{
    if hi <= 0 {
        Seq::empty()
    } else {
        let front = drop_close(s, gap, hi - 1);
        if front.len() == 0 || !(-gap < s[hi - 1] - front.last() < gap) {
            front.push(s[hi - 1])
        } else {
            front
        }
    }
}

/// Keeps `ceil(n * keep_percent / 100)` of the `n` onsets, evenly spread by
/// index: the `j`-th kept onset is `peaks[ceil(j * n / keep)]`.
pub fn reduce_notes(peaks: &Vec<u64>, keep_percent: u64) -> (r: Vec<u64>)
    requires
        1 <= keep_percent <= 100,
    ensures
        r@.len() == keep_count(peaks@.len() as int, keep_percent as int),
        forall|j: int|
            0 <= j < r@.len() ==> r@[j] == peaks@[kept_index(
                j,
                peaks@.len() as int,
                keep_count(peaks@.len() as int, keep_percent as int),
            )],
{
    let n = peaks.len();
    let mut r: Vec<u64> = Vec::new();
    if n == 0 {
        return r;
    }
    assert(n as u128 * keep_percent as u128 <= 0xFFFF_FFFF_FFFF_FFFF * 100) by (nonlinear_arith)
        requires
            n <= 0xFFFF_FFFF_FFFF_FFFF,
            keep_percent <= 100,
    ;
    let keep: u128 = (n as u128 * keep_percent as u128 + 99) / 100;
    let ghost ni = n as int;
    let ghost k = keep as int;
    assert(1 <= k <= ni) by (nonlinear_arith)
        requires
            k == (ni * keep_percent + 99) / 100,
            1 <= keep_percent <= 100,
            ni >= 1,
    ;
    let mut i: usize = 0;
    while i < n
        invariant
            n == peaks@.len(),
            ni == n,
            k == keep,
            1 <= k <= ni,
            k == keep_count(ni, keep_percent as int),
            i <= n,
            r@.len() <= k,
            r@.len() * ni + k > i * k,
            forall|j: int| 0 <= j < r@.len() ==> r@[j] == peaks@[kept_index(j, ni, k)],
        decreases n - i,
    {
        let j = r.len();
        assert(i as u128 * keep <= 0xFFFF_FFFF_FFFF_FFFF * 0xFFFF_FFFF_FFFF_FFFF) by (nonlinear_arith)
            requires
                i <= 0xFFFF_FFFF_FFFF_FFFF,
                keep <= 0xFFFF_FFFF_FFFF_FFFF,
        ;
        assert(j as u128 * n as u128 <= 0xFFFF_FFFF_FFFF_FFFF * 0xFFFF_FFFF_FFFF_FFFF) by (nonlinear_arith)
            requires
                j <= 0xFFFF_FFFF_FFFF_FFFF,
                n <= 0xFFFF_FFFF_FFFF_FFFF,
        ;
        if i as u128 * keep >= j as u128 * n as u128 {
            proof {
                let ji = j as int;
                let ii = i as int;
                assert(ji < k) by (nonlinear_arith)
                    requires
                        ii * k >= ji * ni,
                        ii < ni,
                        k >= 1,
                        ji <= k,
                ;
                assert(ii * k <= ji * ni + k - 1);
                assert(ji * ni + k - 1 < ii * k + k);
                assert(ji * ni + k - 1 == ii * k + (ji * ni + k - 1 - ii * k));
                lemma_fundamental_div_mod_converse(ji * ni + k - 1, k, ii, ji * ni + k - 1 - ii * k);
                assert(kept_index(ji, ni, k) == ii);
                assert((ji + 1) * ni + k > (ii + 1) * k) by (nonlinear_arith)
                    requires
                        ji * ni + k > ii * k,
                        k <= ni,
                ;
            }
            r.push(peaks[i]);
        } else {
            proof {
                let ji = j as int;
                let ii = i as int;
                assert(ji * ni + k > (ii + 1) * k) by (nonlinear_arith)
                    requires
                        ii * k < ji * ni,
                ;
            }
        }
        i = i + 1;
    }
    proof {
        let ji = r@.len() as int;
        assert(ji >= k) by (nonlinear_arith)
            requires
                ji * ni + k > ni * k,
                ni >= 1,
                ji <= k,
                k <= ni,
        ;
    }
    r
}

/// Expert onsets: every onset, plus the midpoint of each gap longer than
/// half a second, with onsets within 50 ms of the previous kept one dropped.
pub fn enhance_notes(peaks: &Vec<u64>) -> (r: Vec<u64>)
    requires
        non_decreasing(peaks@),
    ensures
        r@ == drop_close(
            with_midpoints(peaks@, peaks@.len() as int),
            EXPERT_MERGE_US as int,
            with_midpoints(peaks@, peaks@.len() as int).len() as int,
        ),
{
    let n = peaks.len();
    let mut all: Vec<u64> = Vec::new();
    let mut i: usize = 0;
    while i < n
        invariant
            n == peaks@.len(),
            non_decreasing(peaks@),
            i <= n,
            all@ == with_midpoints(peaks@, i as int),
        decreases n - i,
    {
        if i == 0 {
            all.push(peaks[0]);
            assert(all@ =~= with_midpoints(peaks@, 1));
        } else {
            let a = peaks[i - 1];
            let b = peaks[i];
            assert(a <= b);
            if b - a > EXPERT_GAP_US {
                let mid = ((a as u128 + b as u128) / 2) as u64;
                all.push(mid);
            }
            all.push(b);
        }
        i = i + 1;
    }
    let m = all.len();
    let mut r: Vec<u64> = Vec::new();
    let mut k: usize = 0;
    while k < m
        invariant
            m == all@.len(),
            k <= m,
            r@ == drop_close(all@, EXPERT_MERGE_US as int, k as int),
        decreases m - k,
    {
        let v = all[k];
        if r.len() == 0 {
            r.push(v);
        } else {
            let last = r[r.len() - 1];
            let close = if v >= last {
                v - last < EXPERT_MERGE_US
            } else {
                last - v < EXPERT_MERGE_US
            };
            if !close {
                r.push(v);
            }
        }
        k = k + 1;
    }
    r
}

/// Every `keep`-th share of `peaks` as chosen by `reduce_notes`.
pub open spec fn reduced(peaks: Seq<u64>, keep_percent: int) -> Seq<u64> {
    let n = peaks.len() as int;
    let k = keep_count(n, keep_percent);
    Seq::new(k as nat, |j: int| peaks[kept_index(j, n, k)])
}

/// The onsets that a difficulty keeps.
pub open spec fn shaped(peaks: Seq<u64>, difficulty: Difficulty) -> Seq<u64> {
    match difficulty {
        Difficulty::Easy => reduced(peaks, 60),
        Difficulty::Normal => reduced(peaks, 80),
        Difficulty::Hard => peaks,
        Difficulty::Expert => drop_close(
            with_midpoints(peaks, peaks.len() as int),
            EXPERT_MERGE_US as int,
            with_midpoints(peaks, peaks.len() as int).len() as int,
        ),
    }
}

/// The onsets that `difficulty` keeps: 60% for Easy, 80% for Normal, all for
/// Hard, and all plus gap midpoints for Expert.
pub fn shape(peaks: &Vec<u64>, difficulty: Difficulty) -> (r: Vec<u64>)
    requires
        non_decreasing(peaks@),
    ensures
        r@ == shaped(peaks@, difficulty),
        peaks@.len() == 0 ==> r@.len() == 0,
        forall|j: int| 0 <= j < r@.len() && difficulty != Difficulty::Expert ==> peaks@.contains(
            #[trigger] r@[j],
        ),
{
    match difficulty {
        Difficulty::Easy => {
            let r = reduce_notes(peaks, 60);
            proof {
                lemma_reduced_members(peaks@, 60, r@);
                assert(r@ =~= reduced(peaks@, 60));
            }
            r
        },
        Difficulty::Normal => {
            let r = reduce_notes(peaks, 80);
            proof {
                lemma_reduced_members(peaks@, 80, r@);
                assert(r@ =~= reduced(peaks@, 80));
            }
            r
        },
        Difficulty::Hard => {
            let mut r: Vec<u64> = Vec::new();
            let mut i: usize = 0;
            while i < peaks.len()
                invariant
                    i <= peaks@.len(),
                    r@ == peaks@.subrange(0, i as int),
                decreases peaks@.len() - i,
            {
                r.push(peaks[i]);
                i = i + 1;
            }
            assert(r@ =~= peaks@);
            assert forall|j: int| 0 <= j < r@.len() implies peaks@.contains(#[trigger] r@[j]) by {
                assert(peaks@[j] == r@[j]);
            }
            r
        },
        Difficulty::Expert => {
            let r = enhance_notes(peaks);
            proof {
                if peaks@.len() == 0 {
                    assert(with_midpoints(peaks@, 0).len() == 0);
                }
            }
            r
        },
    }
}

proof fn lemma_reduced_members(peaks: Seq<u64>, pct: int, r: Seq<u64>)
    requires
        1 <= pct <= 100,
        r.len() == keep_count(peaks.len() as int, pct),
        forall|j: int|
            0 <= j < r.len() ==> r[j] == peaks[kept_index(
                j,
                peaks.len() as int,
                keep_count(peaks.len() as int, pct),
            )],
    ensures
        forall|j: int| 0 <= j < r.len() ==> peaks.contains(#[trigger] r[j]),
        peaks.len() == 0 ==> r.len() == 0,
{
    let n = peaks.len() as int;
    let k = keep_count(n, pct);
    assert forall|j: int| 0 <= j < r.len() implies peaks.contains(#[trigger] r[j]) by {
        assert(k <= n && k >= 1) by (nonlinear_arith)
            requires
                k == (n * pct + 99) / 100,
                1 <= pct <= 100,
                n >= 0,
                j < k,
                0 <= j,
        ;
        let x = kept_index(j, n, k);
        assert(0 <= x < n) by (nonlinear_arith)
            requires
                x == (j * n + k - 1) / k,
                0 <= j < k,
                1 <= k <= n,
        {
            assert(j * n + k - 1 < k * n) by (nonlinear_arith)
                requires
                    0 <= j < k,
                    1 <= k <= n,
            ;
            vstd::arithmetic::div_mod::lemma_div_is_ordered(j * n + k - 1, k * n - 1, k);
            vstd::arithmetic::div_mod::lemma_fundamental_div_mod_converse(k * n - 1, k, n - 1, k - 1);
        }
        assert(peaks[x] == r[j]);
    }
    if n == 0 {
        assert(k == 0) by (nonlinear_arith)
            requires
                n == 0,
                k == (n * pct + 99) / 100,
        ;
    }
}

} // verus!
