//! Statistic collectors over the decoded frame sequence.
//!
//! Each collector consumes the records of one replay in order, keeping
//! private accumulator state, and its final state is a pure fold over the
//! sequence.  Everything here is exact integer arithmetic: frame times are
//! ticks, positions are fixed-point.  The collectors gate exactly as the
//! format demands: record zero is a bootstrap record and is always skipped,
//! and a record whose time delta is zero contributes nothing.
//!
//! Vertical velocity `(y - last_y) / frame_time` is handled without any
//! division: its sign, which jump detection needs, is the product of the
//! signs of numerator and denominator, and the upward and downward extremes
//! are kept as exact rationals and compared by cross-multiplication.  The
//! lateral statistics involve a square root, which has no exact integer
//! form; they are left to the caller that renders reports.

use vstd::prelude::*;
use crate::frame::GhostFrame;
use crate::geom::Vector3;
use crate::replay::Replay;

verus! {

/// Distribution of per-tick time deltas: count, exact sum, extremes, all in
/// ticks of 1/10000 s.
#[derive(Clone, Copy, Debug, PartialEq, Eq, Structural)]
pub struct FrameTimeStats {
    pub num_frames: i64,
    pub min_frame_time: i64,
    pub max_frame_time: i64,
    pub frame_time_sum: i64,
}

/// How one record changes the frame-time statistics: record zero and
/// zero-delta records contribute nothing; otherwise the count, sum and
/// maximum update, and the minimum is seeded from the first contributing
/// record rather than from the zero the state started with, so a zero is
/// never falsely reported as the minimum.
pub open spec fn spec_ft_step(st: FrameTimeStats, f: GhostFrame) -> FrameTimeStats {
    if f.index == 0 || f.frame_time == 0 {
        st
    } else {
        FrameTimeStats {
            num_frames: (st.num_frames + 1) as i64,
            frame_time_sum: (st.frame_time_sum + f.frame_time) as i64,
            max_frame_time: if f.frame_time > st.max_frame_time {
                f.frame_time
            } else {
                st.max_frame_time
            },
            min_frame_time: if st.num_frames == 0 || f.frame_time < st.min_frame_time {
                f.frame_time
            } else {
                st.min_frame_time
            },
        }
    }
}

pub open spec fn spec_ft_init() -> FrameTimeStats {
    FrameTimeStats { num_frames: 0i64, min_frame_time: 0i64, max_frame_time: 0i64, frame_time_sum: 0i64 }
}

/// The frame-time statistics of a whole sequence: the fold of the step over
/// the records in order.
pub open spec fn spec_ft_fold(frames: Seq<GhostFrame>) -> FrameTimeStats
    decreases frames.len(),
{
    if frames.len() == 0 {
        spec_ft_init()
    } else {
        spec_ft_step(spec_ft_fold(frames.drop_last()), frames.last())
    }
}

/// Whether every step of the frame-time fold stays within the machine
/// range; real recordings are nowhere near the limits.
pub open spec fn spec_ft_fits(frames: Seq<GhostFrame>) -> bool
    decreases frames.len(),
{
    if frames.len() == 0 {
        true
    } else {
        let st = spec_ft_fold(frames.drop_last());
        let f = frames.last();
        spec_ft_fits(frames.drop_last())
            && (f.index == 0 || f.frame_time == 0
                || (st.num_frames < i64::MAX
                    && i64::MIN <= st.frame_time_sum + f.frame_time <= i64::MAX))
    }
}

impl FrameTimeStats {
    /// The state before any record: everything zero.
    pub fn new() -> (r: FrameTimeStats)
        ensures
            r == spec_ft_init(),
    {
        FrameTimeStats { num_frames: 0, min_frame_time: 0, max_frame_time: 0, frame_time_sum: 0 }
    }

    /// Consumes one record in sequence order; the caller rules the machine
    /// limits out.
    pub fn collect(&mut self, frame: &GhostFrame)
        requires
            frame.index == 0 || frame.frame_time == 0 || (old(self).num_frames < i64::MAX
                && i64::MIN <= old(self).frame_time_sum + frame.frame_time <= i64::MAX),
        ensures
            *final(self) == spec_ft_step(*old(self), *frame),
    {
        if frame.index == 0 {
            return;
        }
        if frame.frame_time == 0 {
            return;
        }
        let first = self.num_frames == 0;
        self.num_frames = self.num_frames + 1;
        self.frame_time_sum = self.frame_time_sum + frame.frame_time;
        if frame.frame_time > self.max_frame_time {
            self.max_frame_time = frame.frame_time;
        }
        if first || frame.frame_time < self.min_frame_time {
            self.min_frame_time = frame.frame_time;
        }
    }
}

/// The sign of an exact integer: -1, 0 or 1.
pub open spec fn spec_sign(v: int) -> int {
    if v > 0 {
        1
    } else if v < 0 {
        -1
    } else {
        0
    }
}

/// The sign of the exact quotient `num / den` (for nonzero `den`): the
/// product of the signs.
pub open spec fn spec_vel_sign(num: int, den: int) -> int {
    spec_sign(num) * spec_sign(den)
}

/// Exact comparison of the rationals `n1/d1 > n2/d2` for positive
/// denominators.
pub open spec fn spec_rat_gt(n1: int, d1: int, n2: int, d2: int) -> bool {
    n1 * d2 > n2 * d1
}

/// A vertical velocity as an exact rational: the position delta over the
/// time delta, sign-normalized to a positive denominator.
pub open spec fn spec_vel_num(dy: int, dt: int) -> int {
    if dt > 0 { dy } else { -dy }
}

pub open spec fn spec_vel_den(dy: int, dt: int) -> int {
    if dt > 0 { dt } else { -dt }
}

/// Vertical-motion statistics: the jump count, with the state the detection
/// needs — the last absolute position and the sign of the last vertical
/// velocity.
#[derive(Clone, Copy, Debug, PartialEq, Eq, Structural)]
pub struct VelocityStats {
    pub last_pos: Vector3,
    /// Sign of the last computed vertical velocity: -1, 0 or 1.
    pub last_y_vel_sign: i64,
    pub num_jumps: i64,
    /// Largest vertical velocity seen, as an exact rational with a positive
    /// denominator; starts at zero.
    pub max_upwards_y_vel_num: i128,
    pub max_upwards_y_vel_den: i128,
    /// Most negative vertical velocity seen, likewise.
    pub max_downward_y_vel_num: i128,
    pub max_downward_y_vel_den: i128,
}

pub open spec fn spec_vel_init() -> VelocityStats {
    VelocityStats {
        last_pos: Vector3 { x: 0i64, y: 0i64, z: 0i64 },
        last_y_vel_sign: 0i64,
        num_jumps: 0i64,
        max_upwards_y_vel_num: 0i128,
        max_upwards_y_vel_den: 1i128,
        max_downward_y_vel_num: 0i128,
        max_downward_y_vel_den: 1i128,
    }
}

/// The machine bounds the velocity extremes carry: numerators are position
/// differences (two 64-bit values), denominators are positive time deltas.
pub open spec fn spec_vel_wf(st: VelocityStats) -> bool {
    &&& -(u64::MAX as int) <= st.max_upwards_y_vel_num <= u64::MAX
    &&& 1 <= st.max_upwards_y_vel_den <= 9223372036854775808i128
    &&& -(u64::MAX as int) <= st.max_downward_y_vel_num <= u64::MAX
    &&& 1 <= st.max_downward_y_vel_den <= 9223372036854775808i128
}

/// How one record changes the vertical-motion statistics.  Record zero and
/// zero-delta records only update the last-seen position; otherwise the
/// vertical velocity's sign is the sign of `(y - last_y) / frame_time`, a
/// jump is counted exactly when the last velocity was zero and the current
/// one is strictly positive, and the sign is carried forward.
pub open spec fn spec_vel_step(st: VelocityStats, f: GhostFrame) -> VelocityStats {
    if f.index != 0 && f.frame_time != 0 {
        let dy = f.pos.y - st.last_pos.y;
        let dt = f.frame_time as int;
        let s = spec_vel_sign(dy, dt);
        let vn = spec_vel_num(dy, dt);
        let vd = spec_vel_den(dy, dt);
        let up = spec_rat_gt(vn, vd, st.max_upwards_y_vel_num as int, st.max_upwards_y_vel_den as int);
        let down = !up
            && spec_rat_gt(st.max_downward_y_vel_num as int, st.max_downward_y_vel_den as int, vn, vd);
        VelocityStats {
            last_pos: f.pos,
            last_y_vel_sign: s as i64,
            num_jumps: if st.last_y_vel_sign == 0 && s > 0 {
                (st.num_jumps + 1) as i64
            } else {
                st.num_jumps
            },
            max_upwards_y_vel_num: if up { vn as i128 } else { st.max_upwards_y_vel_num },
            max_upwards_y_vel_den: if up { vd as i128 } else { st.max_upwards_y_vel_den },
            max_downward_y_vel_num: if down { vn as i128 } else { st.max_downward_y_vel_num },
            max_downward_y_vel_den: if down { vd as i128 } else { st.max_downward_y_vel_den },
        }
    } else {
        VelocityStats {
            last_pos: f.pos,
            last_y_vel_sign: st.last_y_vel_sign,
            num_jumps: st.num_jumps,
            max_upwards_y_vel_num: st.max_upwards_y_vel_num,
            max_upwards_y_vel_den: st.max_upwards_y_vel_den,
            max_downward_y_vel_num: st.max_downward_y_vel_num,
            max_downward_y_vel_den: st.max_downward_y_vel_den,
        }
    }
}

/// The vertical-motion statistics of a whole sequence.
pub open spec fn spec_vel_fold(frames: Seq<GhostFrame>) -> VelocityStats
    decreases frames.len(),
{
    if frames.len() == 0 {
        spec_vel_init()
    } else {
        spec_vel_step(spec_vel_fold(frames.drop_last()), frames.last())
    }
}

/// Whether the jump count stays within the machine range along the fold.
pub open spec fn spec_vel_fits(frames: Seq<GhostFrame>) -> bool
    decreases frames.len(),
{
    if frames.len() == 0 {
        true
    } else {
        spec_vel_fits(frames.drop_last())
            && spec_vel_fold(frames.drop_last()).num_jumps < i64::MAX
    }
}

impl VelocityStats {
    /// The state before any record: origin position, zero velocity, no
    /// jumps.
    pub fn new() -> (r: VelocityStats)
        ensures
            r == spec_vel_init(),
    {
        VelocityStats {
            last_pos: Vector3 { x: 0, y: 0, z: 0 },
            last_y_vel_sign: 0,
            num_jumps: 0,
            max_upwards_y_vel_num: 0,
            max_upwards_y_vel_den: 1,
            max_downward_y_vel_num: 0,
            max_downward_y_vel_den: 1,
        }
    }

    /// Consumes one record in sequence order; the caller rules the machine
    /// limit on the jump count out.
    pub fn collect(&mut self, frame: &GhostFrame)
        requires
            old(self).num_jumps < i64::MAX,
            spec_vel_wf(*old(self)),
        ensures
            *final(self) == spec_vel_step(*old(self), *frame),
            spec_vel_wf(*final(self)),
    {
        if frame.index != 0 && frame.frame_time != 0 {
            let dy: i128 = (frame.pos.y as i128) - (self.last_pos.y as i128);
            let s: i64 = if dy == 0 {
                0
            } else if (dy > 0) == (frame.frame_time > 0) {
                1
            } else {
                -1
            };
            proof {
                let dyi = frame.pos.y - self.last_pos.y;
                let dti = frame.frame_time as int;
                assert(dy == dyi);
                if dyi == 0 {
                    assert(spec_sign(dyi) == 0);
                    assert(spec_vel_sign(dyi, dti) == 0);
                } else if dyi > 0 {
                    assert(spec_sign(dyi) == 1);
                    assert(spec_vel_sign(dyi, dti) == 1 * spec_sign(dti));
                } else {
                    assert(spec_sign(dyi) == -1);
                    assert(spec_vel_sign(dyi, dti) == (-1) * spec_sign(dti));
                }
                assert(s as int == spec_vel_sign(dyi, dti));
            }
            // The velocity as an exact rational with positive denominator.
            let vn: i128 = if frame.frame_time > 0 { dy } else { -dy };
            let vd: i128 = if frame.frame_time > 0 {
                frame.frame_time as i128
            } else {
                -(frame.frame_time as i128)
            };
            proof {
                let dyi = frame.pos.y - self.last_pos.y;
                let dti = frame.frame_time as int;
                assert(vn as int == spec_vel_num(dyi, dti));
                assert(vd as int == spec_vel_den(dyi, dti));
                assert(-(u64::MAX as int) <= vn <= u64::MAX);
                assert(1 <= vd <= 9223372036854775808i128);
                lemma_rat_products_fit(vn as int, vd as int,
                    self.max_upwards_y_vel_num as int, self.max_upwards_y_vel_den as int);
                lemma_rat_products_fit(vn as int, vd as int,
                    self.max_downward_y_vel_num as int, self.max_downward_y_vel_den as int);
            }
            let up = vn * self.max_upwards_y_vel_den > self.max_upwards_y_vel_num * vd;
            if up {
                self.max_upwards_y_vel_num = vn;
                self.max_upwards_y_vel_den = vd;
            } else {
                let down = self.max_downward_y_vel_num * vd > vn * self.max_downward_y_vel_den;
                if down {
                    self.max_downward_y_vel_num = vn;
                    self.max_downward_y_vel_den = vd;
                }
            }
            if self.last_y_vel_sign == 0 && s > 0 {
                self.num_jumps = self.num_jumps + 1;
            }
            self.last_y_vel_sign = s;
            self.last_pos = frame.pos;
        } else {
            self.last_pos = frame.pos;
        }
    }
}

/// The cross products an exact velocity comparison forms fit the 128-bit
/// range: numerators are bounded by one 64-bit difference and denominators
/// by one 64-bit magnitude.
pub proof fn lemma_rat_products_fit(vn: int, vd: int, mn: int, md: int)
    requires
        -(u64::MAX as int) <= vn <= u64::MAX as int,
        1 <= vd <= 9223372036854775808,
        -(u64::MAX as int) <= mn <= u64::MAX as int,
        1 <= md <= 9223372036854775808,
    ensures
        i128::MIN <= vn * md <= i128::MAX,
        i128::MIN <= mn * vd <= i128::MAX,
{
    assert((u64::MAX as int) * 9223372036854775808 < i128::MAX);
    assert(vn * md <= (u64::MAX as int) * 9223372036854775808) by (nonlinear_arith)
        requires
            vn <= u64::MAX as int,
            1 <= md <= 9223372036854775808,
    ;
    assert(vn * md >= -((u64::MAX as int) * 9223372036854775808)) by (nonlinear_arith)
        requires
            vn >= -(u64::MAX as int),
            1 <= md <= 9223372036854775808,
    ;
    assert(mn * vd <= (u64::MAX as int) * 9223372036854775808) by (nonlinear_arith)
        requires
            mn <= u64::MAX as int,
            1 <= vd <= 9223372036854775808,
    ;
    assert(mn * vd >= -((u64::MAX as int) * 9223372036854775808)) by (nonlinear_arith)
        requires
            mn >= -(u64::MAX as int),
            1 <= vd <= 9223372036854775808,
    ;
}

/// Drives both collectors over one shared pass of the finished sequence, in
/// order; succeeds with both final states unless an accumulator would leave
/// the machine range, which no real recording approaches.
pub fn collect_stats(ghost: &Replay) -> (r: Option<(FrameTimeStats, VelocityStats)>)
    ensures
        match r {
            Some(t) => spec_ft_fits(ghost.ghost_frames@) && spec_vel_fits(ghost.ghost_frames@)
                && t.0 == spec_ft_fold(ghost.ghost_frames@)
                && t.1 == spec_vel_fold(ghost.ghost_frames@),
            None => !(spec_ft_fits(ghost.ghost_frames@) && spec_vel_fits(ghost.ghost_frames@)),
        },
{
    let frames = &ghost.ghost_frames;
    let ghost fseq = frames@;
    let mut ft = FrameTimeStats::new();
    let mut vel = VelocityStats::new();
    let mut i: usize = 0;
    proof {
        assert(fseq.take(0) =~= Seq::<GhostFrame>::empty());
    }
    while i < frames.len()
        invariant
            i <= fseq.len(),
            fseq == frames@,
            frames == &ghost.ghost_frames,
            spec_ft_fits(fseq.take(i as int)),
            spec_vel_fits(fseq.take(i as int)),
            ft == spec_ft_fold(fseq.take(i as int)),
            vel == spec_vel_fold(fseq.take(i as int)),
            spec_vel_wf(vel),
        decreases fseq.len() - i,
    {
        let f = &frames[i];
        proof {
            assert(fseq.take(i + 1).drop_last() =~= fseq.take(i as int));
            assert(fseq.take(i + 1).last() == fseq[i as int]);
        }
        let ft_ok = if f.index == 0 || f.frame_time == 0 {
            true
        } else {
            ft.num_frames < i64::MAX && ft.frame_time_sum.checked_add(f.frame_time).is_some()
        };
        if !ft_ok {
            proof {
                lemma_ft_fits_prefix(fseq, i + 1);
            }
            return None;
        }
        if vel.num_jumps == i64::MAX {
            proof {
                lemma_vel_fits_prefix(fseq, i + 1);
            }
            return None;
        }
        ft.collect(f);
        vel.collect(f);
        i = i + 1;
    }
    proof {
        assert(fseq.take(i as int) =~= fseq);
    }
    Some((ft, vel))
}

/// Once a prefix of the sequence leaves the frame-time fold's range, the
/// whole sequence does.
pub proof fn lemma_ft_fits_prefix(frames: Seq<GhostFrame>, i: int)
    requires
        0 <= i <= frames.len(),
        !spec_ft_fits(frames.take(i)),
    ensures
        !spec_ft_fits(frames),
    decreases frames.len() - i,
{
    if i < frames.len() {
        assert(frames.take(i + 1).drop_last() =~= frames.take(i));
        lemma_ft_fits_prefix(frames, i + 1);
    } else {
        assert(frames.take(i) =~= frames);
    }
}

/// Once a prefix of the sequence leaves the jump count's range, the whole
/// sequence does.
pub proof fn lemma_vel_fits_prefix(frames: Seq<GhostFrame>, i: int)
    requires
        0 <= i <= frames.len(),
        !spec_vel_fits(frames.take(i)),
    ensures
        !spec_vel_fits(frames),
    decreases frames.len() - i,
{
    if i < frames.len() {
        assert(frames.take(i + 1).drop_last() =~= frames.take(i));
        lemma_vel_fits_prefix(frames, i + 1);
    } else {
        assert(frames.take(i) =~= frames);
    }
}

} // verus!
