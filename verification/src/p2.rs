//! Streaming quantile estimator with five markers and constant memory
//! (the Jain–Chlamtac algorithm).
//!
//! Sample values are ticks. The five marker heights are observed sample
//! values at the tracked ranks; the marker positions are strictly increasing
//! ranks starting at one; the desired positions advance by fixed fractional
//! increments per sample. The fractional bookkeeping is exact: the target
//! quantile is the rational `p_num / p_den`, and desired positions are kept
//! scaled by `2 * p_den`, so the drift test of the adjustment pass is the
//! same comparison the real-valued algorithm makes. Heights move by the
//! parabolic interpolation formula when it keeps them between their
//! neighbours and by linear interpolation otherwise, both rounded to ticks.
//!
//! After every sample the heights are sorted and the positions strictly
//! increasing; the estimate is the middle height, published only once the
//! convergence threshold of samples has been seen.

use vstd::prelude::*;

verus! {

/// Samples beyond this count leave the estimator unchanged.
pub const COUNT_MAX: u64 = 0x100_0000_0000;

/// Sample values are clamped to this height before use.
pub const HEIGHT_MAX: u64 = 0x4_0000_0000_0000;

/// The estimate is published strictly after this many samples.
pub const CONV_MIN: u64 = 500;

/// Largest accepted quantile denominator.
pub const DEN_MAX: u64 = 0x1_0000;

pub open spec fn min64(a: u64, b: u64) -> u64 {
    if a <= b {
        a
    } else {
        b
    }
}

pub open spec fn max64(a: u64, b: u64) -> u64 {
    if a >= b {
        a
    } else {
        b
    }
}

pub open spec fn sorted(s: Seq<u64>) -> bool {
    forall|i: int, j: int| 0 <= i <= j < s.len() ==> s[i] <= s[j]
}

pub open spec fn strictly_increasing(s: Seq<u64>) -> bool {
    forall|i: int, j: int| 0 <= i < j < s.len() ==> s[i] < s[j]
}

/// Initial desired positions (1, 1+2p, 1+4p, 3+2p, 5), scaled by 2*p_den.
pub open spec fn init_npos2(i: int, pn: u64, pd: u64) -> int {
    if i == 0 {
        2 * pd
    } else if i == 1 {
        2 * pd + 4 * pn
    } else if i == 2 {
        2 * pd + 8 * pn
    } else if i == 3 {
        6 * pd + 4 * pn
    } else {
        10 * pd
    }
}

/// Per-sample increments (0, p/2, p, (1+p)/2, 1), scaled by 2*p_den.
pub open spec fn incr2_spec(i: int, pn: u64, pd: u64) -> int {
    if i == 0 {
        0
    } else if i == 1 {
        pn as int
    } else if i == 2 {
        2 * pn
    } else if i == 3 {
        pd + pn
    } else {
        2 * pd
    }
}

pub struct P2 {
    count: u64,
    p_num: u64,
    p_den: u64,
    heights: Vec<u64>,
    positions: Vec<u64>,
    npos2: Vec<u64>,
}

impl P2 {
    pub closed spec fn count_spec(&self) -> u64 {
        self.count
    }

    pub closed spec fn p_num_spec(&self) -> u64 {
        self.p_num
    }

    pub closed spec fn p_den_spec(&self) -> u64 {
        self.p_den
    }

    pub closed spec fn heights_view(&self) -> Seq<u64> {
        self.heights@
    }

    pub closed spec fn positions_view(&self) -> Seq<u64> {
        self.positions@
    }

    pub closed spec fn npos2_view(&self) -> Seq<u64> {
        self.npos2@
    }

    /// The estimator invariant: heights sorted and bounded, positions
    /// strictly increasing ranks starting at one and dominated by the sample
    /// count, desired positions tracking their increments exactly.
    pub open spec fn wf(&self) -> bool {
        &&& 1 <= self.p_den_spec() <= DEN_MAX
        &&& self.p_num_spec() <= self.p_den_spec()
        &&& self.count_spec() <= COUNT_MAX
        &&& self.heights_view().len() == if self.count_spec() < 5 {
            self.count_spec() as int
        } else {
            5
        }
        &&& sorted(self.heights_view())
        &&& forall|i: int|
            0 <= i < self.heights_view().len()
                ==> #[trigger] self.heights_view()[i] <= HEIGHT_MAX
        &&& self.positions_view().len() == 5
        &&& self.npos2_view().len() == 5
        &&& strictly_increasing(self.positions_view())
        &&& self.positions_view()[0] == 1
        &&& self.count_spec() < 5 ==> self.positions_view() =~= seq![
            1u64,
            2u64,
            3u64,
            4u64,
            5u64,
        ]
        &&& self.positions_view()[4] == if self.count_spec() < 5 {
            5
        } else {
            self.count_spec() as int
        }
        &&& forall|i: int|
            0 <= i < 5 ==> #[trigger] self.npos2_view()[i] == init_npos2(
                i,
                self.p_num_spec(),
                self.p_den_spec(),
            ) + incr2_spec(i, self.p_num_spec(), self.p_den_spec()) * (if self
                .count_spec() < 5 {
                0
            } else {
                self.count_spec() - 5
            })
    }

    /// A fresh estimator for the quantile `p_num / p_den`.
    pub fn new(p_num: u64, p_den: u64) -> (r: P2)
        requires
            1 <= p_den <= DEN_MAX,
            p_num <= p_den,
        ensures
            r.wf(),
            r.count_spec() == 0,
            r.p_num_spec() == p_num,
            r.p_den_spec() == p_den,
    {
        let mut npos2: Vec<u64> = Vec::new();
        npos2.push(2 * p_den);
        npos2.push(2 * p_den + 4 * p_num);
        npos2.push(2 * p_den + 8 * p_num);
        npos2.push(6 * p_den + 4 * p_num);
        npos2.push(10 * p_den);
        let mut positions: Vec<u64> = Vec::new();
        positions.push(1);
        positions.push(2);
        positions.push(3);
        positions.push(4);
        positions.push(5);
        P2 {
            count: 0,
            p_num,
            p_den,
            heights: Vec::new(),
            positions,
            npos2,
        }
    }

    /// The current estimate: the middle marker height, available strictly
    /// after the convergence threshold of samples.
    pub fn get_quantile(&self) -> (r: Option<u64>)
        requires
            self.wf(),
        ensures
            r is Some <==> self.count_spec() > CONV_MIN,
            r matches Some(q) ==> q == self.heights_view()[2],
    {
        if self.count > CONV_MIN {
            Some(self.heights[2])
        } else {
            None
        }
    }

    pub fn get_count(&self) -> (r: u64)
        ensures
            r == self.count_spec(),
    {
        self.count
    }

    /// The marker heights, in rank order (for inspection and tests).
    pub fn get_heights(&self) -> (r: Vec<u64>)
        ensures
            r@ == self.heights_view(),
    {
        clone_u64_vec(&self.heights)
    }

    /// The marker positions (for inspection and tests).
    pub fn get_positions(&self) -> (r: Vec<u64>)
        ensures
            r@ == self.positions_view(),
    {
        clone_u64_vec(&self.positions)
    }

    /// Inserts a warm-up sample keeping the buffer sorted; once five samples
    /// are buffered the result equals sorting the first five raw samples.
    fn insert_sorted(&mut self, s: u64)
        requires
            old(self).heights_view().len() < 5,
            sorted(old(self).heights_view()),
            forall|i: int|
                0 <= i < old(self).heights_view().len()
                    ==> #[trigger] old(self).heights_view()[i] <= HEIGHT_MAX,
            s <= HEIGHT_MAX,
        ensures
            final(self).heights_view().len() == old(self).heights_view().len() + 1,
            sorted(final(self).heights_view()),
            forall|i: int|
                0 <= i < final(self).heights_view().len()
                    ==> #[trigger] final(self).heights_view()[i] <= HEIGHT_MAX,
            old(self).heights_view().len() == 0 ==> final(self).heights_view() == seq![s],
            old(self).heights_view().len() > 0 ==> final(self).heights_view().first()
                == min64(old(self).heights_view().first(), s) && final(self)
                .heights_view().last() == max64(old(self).heights_view().last(), s),
            final(self).count_spec() == old(self).count_spec(),
            final(self).p_num_spec() == old(self).p_num_spec(),
            final(self).p_den_spec() == old(self).p_den_spec(),
            final(self).positions_view() == old(self).positions_view(),
            final(self).npos2_view() == old(self).npos2_view(),
    {
        let mut i: usize = 0;
        while i < self.heights.len() && self.heights[i] <= s
            invariant
                0 <= i <= self.heights@.len(),
                forall|j: int| 0 <= j < i ==> #[trigger] self.heights@[j] <= s,
            decreases self.heights@.len() - i,
        {
            i = i + 1;
        }
        self.heights.insert(i, s);
        proof {
            let h = self.heights@;
            let h0 = old(self).heights_view();
            assert forall|a: int, b: int| 0 <= a <= b < h.len() implies h[a] <= h[b] by {
                if a < i && b == i {
                    assert(h[a] == h0[a]);
                } else if a == i && b > i {
                    assert(h[b] == h0[b - 1]);
                }
            }
        }
    }

    /// Feeds one sample. Values above `HEIGHT_MAX` are clamped and samples
    /// beyond `COUNT_MAX` are ignored, so the estimator never overflows its
    /// tick arithmetic; within those bounds the update is the five-marker
    /// algorithm exactly.
    pub fn new_sample(&mut self, sample: u64)
        requires
            old(self).wf(),
        ensures
            final(self).wf(),
            final(self).p_num_spec() == old(self).p_num_spec(),
            final(self).p_den_spec() == old(self).p_den_spec(),
            old(self).count_spec() >= COUNT_MAX ==> *final(self) == *old(self),
            old(self).count_spec() < COUNT_MAX ==> final(self).count_spec() == old(
                self,
            ).count_spec() + 1,
            old(self).count_spec() < COUNT_MAX ==> ({
                let s = if sample > HEIGHT_MAX {
                    HEIGHT_MAX
                } else {
                    sample
                };
                // The outer markers track the observed extremes (up to the
                // documented clamp): the lowest only ever descends to the
                // sample, the highest only ever ascends to it.
                &&& old(self).count_spec() == 0 ==> final(self).heights_view() == seq![s]
                &&& 1 <= old(self).count_spec() < 5 ==> final(self).heights_view()
                    .first() == min64(old(self).heights_view().first(), s)
                    && final(self).heights_view().last() == max64(
                    old(self).heights_view().last(),
                    s,
                )
                &&& old(self).count_spec() >= 5 ==> final(self).heights_view()[0]
                    == min64(old(self).heights_view()[0], s)
                    && final(self).heights_view()[4] == max64(
                    old(self).heights_view()[4],
                    s,
                )
                // Each interior marker rank moves at most one step in the
                // rank shift and at most one more in the adjustment pass.
                &&& old(self).count_spec() >= 5 ==> forall|j: int|
                    1 <= j <= 3 ==> old(self).positions_view()[j] - 1 <= #[trigger]
                        final(self).positions_view()[j] <= old(self).positions_view()[j]
                        + 2
            }),
    {
        if self.count >= COUNT_MAX {
            return;
        }
        let s = if sample > HEIGHT_MAX {
            HEIGHT_MAX
        } else {
            sample
        };
        self.count = self.count + 1;
        if self.heights.len() < 5 {
            self.insert_sorted(s);
            return;
        }

        // Locate the bracketing marker interval, clamping to the outer
        // markers when the sample falls outside the observed range.
        let mut k: usize = 1;
        if s < self.heights[0] {
            self.heights[0] = s;
        } else {
            while k <= 3 && s >= self.heights[k]
                invariant
                    1 <= k <= 4,
                    self.heights@.len() == 5,
                decreases 4 - k,
            {
                k = k + 1;
            }
            if s > self.heights[4] {
                self.heights[4] = s;
            }
        }
        proof {
            assert(sorted(self.heights@));
        }

        // Every marker at or above the insertion point moves up one rank.
        let ghost pos0 = self.positions@;
        let ghost h1 = self.heights@;
        let ghost np0 = self.npos2@;
        let mut i: usize = k;
        while i < 5
            invariant
                k <= i <= 5,
                1 <= k <= 4,
                self.positions@.len() == 5,
                pos0.len() == 5,
                strictly_increasing(pos0),
                forall|j: int| 0 <= j < 5 ==> #[trigger] pos0[j] <= pos0[4],
                pos0[4] < self.count,
                self.count == old(self).count_spec() + 1,
                self.count <= COUNT_MAX,
                self.p_num == old(self).p_num_spec(),
                self.p_den == old(self).p_den_spec(),
                self.heights@ == h1,
                self.npos2@ == np0,
                forall|j: int| 0 <= j < k ==> #[trigger] self.positions@[j] == pos0[j],
                forall|j: int|
                    k <= j < i ==> #[trigger] self.positions@[j] == pos0[j] + 1,
                forall|j: int| i <= j < 5 ==> #[trigger] self.positions@[j] == pos0[j],
            decreases 5 - i,
        {
            let p = self.positions[i];
            self.positions[i] = p + 1;
            i = i + 1;
        }
        proof {
            assert forall|a: int, b: int| 0 <= a < b < 5
                implies self.positions@[a] < self.positions@[b] by {
                assert(pos0[a] < pos0[b]);
            }
            assert(self.positions@[0] == pos0[0]);
        }

        // Desired positions advance by their fixed per-sample increments;
        // their exact closed form keeps the sums in range.
        let pd = self.p_den;
        let pn = self.p_num;
        proof {
            lemma_npos_bound(pn, pd, self.count as int);
            assert forall|j: int| 0 <= j < 5 implies #[trigger] old(self).npos2_view()[j]
                + incr2_spec(j, pn, pd) <= u64::MAX by {
                assert(old(self).npos2_view()[j] == init_npos2(j, pn, pd) + incr2_spec(
                    j,
                    pn,
                    pd,
                ) * (old(self).count_spec() - 5));
                lemma_incr_step(j, pn, pd, old(self).count_spec() as int);
            }
        }
        let n1 = self.npos2[1];
        self.npos2[1] = n1 + pn;
        let n2 = self.npos2[2];
        self.npos2[2] = n2 + 2 * pn;
        let n3 = self.npos2[3];
        self.npos2[3] = n3 + (pd + pn);
        let n4 = self.npos2[4];
        self.npos2[4] = n4 + 2 * pd;
        proof {
            assert forall|j: int| 0 <= j < 5 implies #[trigger] self.npos2@[j]
                == init_npos2(j, pn, pd) + incr2_spec(j, pn, pd) * (self.count - 5) by {
                lemma_incr_step(j, pn, pd, old(self).count_spec() as int);
            }
        }

        self.adjust();
    }

    /// The adjustment pass: each interior marker whose actual rank has
    /// drifted a full step from its desired rank, in a direction that keeps
    /// both neighbour gaps positive, moves one rank and its height is
    /// re-interpolated.
    fn adjust(&mut self)
        requires
            old(self).count_spec() >= 5,
            old(self).heights_view().len() == 5,
            sorted(old(self).heights_view()),
            forall|i: int|
                0 <= i < 5 ==> #[trigger] old(self).heights_view()[i] <= HEIGHT_MAX,
            old(self).positions_view().len() == 5,
            strictly_increasing(old(self).positions_view()),
            old(self).positions_view()[0] == 1,
            old(self).positions_view()[4] <= old(self).count_spec(),
            old(self).count_spec() <= COUNT_MAX,
            old(self).npos2_view().len() == 5,
            1 <= old(self).p_den_spec() <= DEN_MAX,
        ensures
            final(self).count_spec() == old(self).count_spec(),
            final(self).p_num_spec() == old(self).p_num_spec(),
            final(self).p_den_spec() == old(self).p_den_spec(),
            final(self).npos2_view() == old(self).npos2_view(),
            final(self).heights_view().len() == 5,
            sorted(final(self).heights_view()),
            forall|i: int|
                0 <= i < 5 ==> #[trigger] final(self).heights_view()[i] <= HEIGHT_MAX,
            final(self).positions_view().len() == 5,
            strictly_increasing(final(self).positions_view()),
            final(self).positions_view()[0] == 1,
            final(self).positions_view()[4] == old(self).positions_view()[4],
            final(self).heights_view()[0] == old(self).heights_view()[0],
            final(self).heights_view()[4] == old(self).heights_view()[4],
            forall|j: int|
                1 <= j <= 3 ==> old(self).positions_view()[j] - 1
                    <= #[trigger] final(self).positions_view()[j]
                    <= old(self).positions_view()[j] + 1,
    {
        let den2: u64 = 2 * self.p_den;
        let mut i: usize = 1;
        while i < 4
            invariant
                1 <= i <= 4,
                self.count == old(self).count_spec(),
                self.p_num == old(self).p_num_spec(),
                self.p_den == old(self).p_den_spec(),
                den2 == 2 * self.p_den,
                1 <= self.p_den <= DEN_MAX,
                self.npos2@ == old(self).npos2_view(),
                self.npos2@.len() == 5,
                self.positions@[4] <= COUNT_MAX,
                self.heights@.len() == 5,
                sorted(self.heights@),
                forall|j: int| 0 <= j < 5 ==> #[trigger] self.heights@[j] <= HEIGHT_MAX,
                self.positions@.len() == 5,
                strictly_increasing(self.positions@),
                self.positions@[0] == 1,
                self.positions@[4] == old(self).positions_view()[4],
                self.heights@[0] == old(self).heights_view()[0],
                self.heights@[4] == old(self).heights_view()[4],
                forall|j: int|
                    1 <= j < i ==> old(self).positions_view()[j] - 1 <= #[trigger] self
                        .positions@[j] <= old(self).positions_view()[j] + 1,
                forall|j: int|
                    i <= j <= 3 ==> #[trigger] self.positions@[j] == old(
                        self,
                    ).positions_view()[j],
            decreases 4 - i,
        {
            proof {
                assert(self.positions@[i as int] <= self.positions@[4]);
                lemma_mul_bound_int(
                    self.positions@[i as int] as int,
                    den2 as int,
                    COUNT_MAX as int,
                    (2 * DEN_MAX) as int,
                );
            }
            let diff: i128 = self.npos2[i] as i128 - (self.positions[i] as i128) * (
            den2 as i128);
            let want_up = diff >= den2 as i128;
            let want_down = diff <= -(den2 as i128);
            let gap_up = self.positions[i + 1] - self.positions[i];
            let gap_down = self.positions[i] - self.positions[i - 1];

            if (want_up && gap_up > 1) || (want_down && gap_down > 1) {
                let new_height = if want_up {
                    self.interpolate(i, true)
                } else {
                    self.interpolate(i, false)
                };
                self.heights[i] = new_height;
                if want_up {
                    let p = self.positions[i];
                    self.positions[i] = p + 1;
                } else {
                    let p = self.positions[i];
                    self.positions[i] = p - 1;
                }
            }
            i = i + 1;
        }
    }

    /// New height for marker `i` after a one-rank move in direction `up`:
    /// the parabolic prediction when it stays strictly between the
    /// neighbouring heights, the linear one otherwise. Either way the result
    /// lies between the neighbouring heights, so the heights stay sorted.
    fn interpolate(&self, i: usize, up: bool) -> (r: u64)
        requires
            1 <= i <= 3,
            self.heights_view().len() == 5,
            sorted(self.heights_view()),
            forall|j: int|
                0 <= j < 5 ==> #[trigger] self.heights_view()[j] <= HEIGHT_MAX,
            self.positions_view().len() == 5,
            strictly_increasing(self.positions_view()),
            self.positions_view()[4] <= COUNT_MAX,
            up ==> self.positions_view()[i + 1] - self.positions_view()[i as int] > 1,
            !up ==> self.positions_view()[i as int] - self.positions_view()[i - 1] > 1,
        ensures
            self.heights_view()[i - 1] <= r <= self.heights_view()[i + 1],
    {
        let qim1 = self.heights[i - 1];
        let qi = self.heights[i];
        let qip1 = self.heights[i + 1];
        let nim1 = self.positions[i - 1] as u128;
        let ni = self.positions[i] as u128;
        let nip1 = self.positions[i + 1] as u128;
        proof {
            assert(self.positions_view()[i - 1] < self.positions_view()[i as int]);
            assert(self.positions_view()[i as int] < self.positions_view()[i + 1]);
            assert(self.positions_view()[i + 1] <= self.positions_view()[4]);
            assert(self.heights_view()[i - 1] <= self.heights_view()[i as int]);
            assert(self.heights_view()[i as int] <= self.heights_view()[i + 1]);
        }
        // The parabolic prediction, with the one-rank move `d` folded in:
        // both summed terms are non-negative, so the magnitude of the
        // prediction's offset from the current height divides out last and
        // only unsigned arithmetic is needed.
        let a1: u128 = if up {
            nip1 - ni - 1
        } else {
            nip1 - ni + 1
        };
        let a2: u128 = if up {
            ni - nim1 + 1
        } else {
            ni - nim1 - 1
        };
        let b1: u128 = (qi - qim1) as u128;
        let b2: u128 = (qip1 - qi) as u128;
        proof {
            lemma_mul_bound_int(
                a1 as int,
                b1 as int,
                (COUNT_MAX + 1) as int,
                HEIGHT_MAX as int,
            );
            lemma_mul_bound_int(
                a2 as int,
                b2 as int,
                (COUNT_MAX + 1) as int,
                HEIGHT_MAX as int,
            );
        }
        let t1: u128 = a1 * b1 / (ni - nim1);
        let t2: u128 = a2 * b2 / (nip1 - ni);
        proof {
            assert(a1 * b1 / (ni - nim1) <= a1 * b1) by (nonlinear_arith)
                requires
                    ni - nim1 >= 1,
                    a1 * b1 >= 0,
            ;
            assert(a2 * b2 / (nip1 - ni) <= a2 * b2) by (nonlinear_arith)
                requires
                    nip1 - ni >= 1,
                    a2 * b2 >= 0,
            ;
        }
        let offset: u128 = (t1 + t2) / (nip1 - nim1);
        let within = if up {
            offset <= (HEIGHT_MAX - qi) as u128 && {
                let cand = qi + offset as u64;
                qim1 < cand && cand < qip1
            }
        } else {
            offset <= qi as u128 && {
                let cand = qi - offset as u64;
                qim1 < cand && cand < qip1
            }
        };

        if within {
            if up {
                qi + offset as u64
            } else {
                qi - offset as u64
            }
        } else {
            // Linear fallback towards the neighbour in the move direction.
            if up {
                let gap = self.positions[i + 1] - self.positions[i];
                let step = (qip1 - qi) / gap;
                proof {
                    assert((qip1 - qi) as int / gap as int <= qip1 - qi) by (nonlinear_arith)
                        requires
                            gap >= 1,
                            qip1 >= qi,
                    ;
                }
                qi + step
            } else {
                let gap = self.positions[i] - self.positions[i - 1];
                let step = (qi - qim1) / gap;
                proof {
                    assert((qi - qim1) as int / gap as int <= qi - qim1) by (nonlinear_arith)
                        requires
                            gap >= 1,
                            qi >= qim1,
                    ;
                }
                qi - step
            }
        }
    }
}

/// The scaled desired positions stay below the overflow bound while the
/// sample count is within range.
proof fn lemma_npos_bound(pn: u64, pd: u64, count: int)
    requires
        1 <= pd <= DEN_MAX,
        pn <= pd,
        5 <= count <= COUNT_MAX,
    ensures
        forall|i: int|
            0 <= i < 5 ==> init_npos2(i, pn, pd) + incr2_spec(i, pn, pd) * (count - 5)
                <= u64::MAX,
{
    assert forall|i: int|
        0 <= i < 5 implies init_npos2(i, pn, pd) + incr2_spec(i, pn, pd) * (count - 5)
        <= u64::MAX by {
        assert(incr2_spec(i, pn, pd) <= 2 * pd);
        assert(init_npos2(i, pn, pd) <= 10 * pd);
        assert(incr2_spec(i, pn, pd) * (count - 5) <= 2 * pd * (count - 5))
            by (nonlinear_arith)
            requires
                0 <= incr2_spec(i, pn, pd) <= 2 * pd,
                count >= 5,
        ;
        assert(2 * pd * (count - 5) <= 2 * (DEN_MAX as int) * (COUNT_MAX as int))
            by (nonlinear_arith)
            requires
                1 <= pd <= DEN_MAX,
                5 <= count <= COUNT_MAX,
        ;
    }
}

/// One more sample advances a scaled desired position by its increment.
proof fn lemma_incr_step(i: int, pn: u64, pd: u64, c0: int)
    requires
        c0 >= 5,
    ensures
        incr2_spec(i, pn, pd) * (c0 + 1 - 5) == incr2_spec(i, pn, pd) * (c0 - 5)
            + incr2_spec(i, pn, pd),
{
    let w = incr2_spec(i, pn, pd);
    assert(w * (c0 + 1 - 5) == w * (c0 - 5) + w) by (nonlinear_arith);
}

/// Bounded non-negative factors give a bounded product.
proof fn lemma_mul_bound_int(a: int, b: int, ca: int, cb: int)
    requires
        0 <= a <= ca,
        0 <= b <= cb,
    ensures
        a * b <= ca * cb,
{
    assert(a * b <= ca * cb) by (nonlinear_arith)
        requires
            a <= ca,
            b <= cb,
            a >= 0,
            b >= 0,
    ;
}

/// Element-wise copy; `u64` is plain data, so the view is preserved.
fn clone_u64_vec(v: &Vec<u64>) -> (r: Vec<u64>)
    ensures
        r@ == v@,
{
    let mut out: Vec<u64> = Vec::new();
    let mut i: usize = 0;
    while i < v.len()
        invariant
            0 <= i <= v@.len(),
            out@ == v@.take(i as int),
        decreases v@.len() - i,
    {
        out.push(v[i]);
        proof {
            assert(out@ == v@.take(i + 1));
        }
        i = i + 1;
    }
    proof {
        assert(v@.take(v@.len() as int) == v@);
    }
    out
}

} // verus!
