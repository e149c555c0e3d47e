//! Frame tokens and their decoding into resolved frame records.
//!
//! A frame token is a concatenation of `{label}{value}` pairs with no
//! separator: each label is a single lowercase letter from the closed set
//! `a..=k`, and its value runs from just after the label's first occurrence
//! to just before the next letter (or the token's end).  Values never hold
//! letters — they are integers, decimals, commas, signs and dots — which is
//! what makes the truncation rule sound.  Flag labels carry no value: their
//! mere presence sets the flag.
//!
//! Decoding threads cumulative state forward: each record's cumulative
//! time, position and angles are the previous record's plus this record's
//! deltas, exactly.

use vstd::prelude::*;
use crate::bytes::{find_byte, copy_range};
use crate::errors::DecodeError;
use crate::events::{TriggerEvent, spec_classify_event, classify_event};
use crate::geom::{Vector3, spec_vector3_from, spec_vec_add};
use crate::numtext::{spec_parse_i64, spec_parse_fixed4, parse_i64_text, parse_fixed4};

verus! {

pub open spec fn is_letter_byte(b: u8) -> bool {
    (65 <= b && b <= 90) || (97 <= b && b <= 122)
}

/// The closed label set `a..=k`.
pub open spec fn is_label_byte(b: u8) -> bool {
    97 <= b && b <= 107
}

/// A letter that is not a recognized label: an internal-consistency error,
/// since the label set is closed.
pub open spec fn spec_has_unknown_label(t: Seq<u8>) -> bool {
    exists|i: int| 0 <= i < t.len() && is_letter_byte(#[trigger] t[i]) && !is_label_byte(t[i])
}

/// Whether the label byte occurs anywhere in the token: for flag labels,
/// presence alone is the signal.
pub open spec fn spec_flag(t: Seq<u8>, c: u8) -> bool {
    exists|i: int| 0 <= i < t.len() && #[trigger] t[i] == c
}

/// The value substring of a label: the bytes after the label's first
/// occurrence, truncated just before the next letter, or running to the
/// token's end if no letter follows.  Absent labels have no value.
pub open spec fn spec_label_value(t: Seq<u8>, c: u8) -> Option<Seq<u8>> {
    if spec_flag(t, c) {
        let i = choose|i: int| 0 <= i < t.len() && #[trigger] t[i] == c
            && forall|j: int| 0 <= j < i ==> t[j] != c;
        let rest = t.subrange(i + 1, t.len() as int);
        if exists|k: int| 0 <= k < rest.len() && is_letter_byte(#[trigger] rest[k]) {
            let k = choose|k: int| 0 <= k < rest.len() && is_letter_byte(#[trigger] rest[k])
                && forall|j: int| 0 <= j < k ==> !is_letter_byte(rest[j]);
            Some(rest.take(k))
        } else {
            Some(rest)
        }
    } else {
        None
    }
}

/// Finds the first letter at or after `from`.
fn find_letter(s: &[u8], from: usize) -> (r: Option<usize>)
    requires
        from <= s@.len(),
    ensures
        match r {
            Some(i) => from <= i < s@.len() && is_letter_byte(s@[i as int])
                && (forall|j: int| from <= j < i ==> !is_letter_byte(s@[j])),
            None => forall|j: int| from <= j < s@.len() ==> !is_letter_byte(s@[j]),
        },
{
    let mut i: usize = from;
    while i < s.len()
        invariant
            from <= i <= s@.len(),
            forall|j: int| from <= j < i ==> !is_letter_byte(s@[j]),
        decreases s@.len() - i,
    {
        let b = s[i];
        if (65 <= b && b <= 90) || (97 <= b && b <= 122) {
            return Some(i);
        }
        i = i + 1;
    }
    None
}

/// Extracts a label's value substring, exactly as `spec_label_value` reads
/// it.
pub fn label_value(t: &[u8], c: u8) -> (r: Option<Vec<u8>>)
    ensures
        match r {
            Some(v) => spec_label_value(t@, c) == Some(v@),
            None => spec_label_value(t@, c) == None::<Seq<u8>>,
        },
{
    let n = t.len();
    let pos = match find_byte(t, 0, c) {
        Some(p) => p,
        None => {
            proof {
                assert(!spec_flag(t@, c));
            }
            return None;
        },
    };
    proof {
        assert(spec_flag(t@, c));
        assert(t@[pos as int] == c && forall|j: int| 0 <= j < pos ==> t@[j] != c);
        let i = choose|i: int| 0 <= i < t@.len() && #[trigger] t@[i] == c
            && forall|j: int| 0 <= j < i ==> t@[j] != c;
        assert(i == pos) by {
            if i < pos {
                assert(t@[i] == c);
            }
            if i > pos {
                assert(t@[pos as int] != c);
            }
        }
    }
    let ghost rest = t@.subrange(pos + 1, t@.len() as int);
    proof {
        assert(pos < n);
    }
    match find_letter(t, pos + 1) {
        Some(k) => {
            proof {
                let rk = k - pos - 1;
                assert(rest[rk] == t@[k as int]);
                assert(is_letter_byte(rest[rk])
                    && forall|j: int| 0 <= j < rk ==> !is_letter_byte(rest[j])) by {
                    assert(forall|j: int| 0 <= j < rk ==> rest[j] == t@[j + pos + 1]);
                }
                assert(exists|x: int| 0 <= x < rest.len() && is_letter_byte(#[trigger] rest[x]));
                let kk = choose|x: int| 0 <= x < rest.len() && is_letter_byte(#[trigger] rest[x])
                    && forall|j: int| 0 <= j < x ==> !is_letter_byte(rest[j]);
                assert(kk == rk) by {
                    if kk < rk {
                        assert(is_letter_byte(rest[kk]));
                    }
                    if kk > rk {
                        assert(!is_letter_byte(rest[rk]));
                    }
                }
                assert(rest.take(rk) =~= t@.subrange(pos + 1, k as int));
            }
            Some(copy_range(t, pos + 1, k))
        },
        None => {
            proof {
                assert(forall|j: int| 0 <= j < rest.len() ==> !is_letter_byte(rest[j])) by {
                    assert(forall|j: int| 0 <= j < rest.len() ==> rest[j] == t@[j + pos + 1]);
                }
            }
            Some(copy_range(t, pos + 1, t.len()))
        },
    }
}

/// Scans a token for a letter outside the closed label set.
pub fn has_unknown_label(t: &[u8]) -> (r: bool)
    ensures
        r == spec_has_unknown_label(t@),
{
    let mut i: usize = 0;
    while i < t.len()
        invariant
            i <= t@.len(),
            forall|j: int| 0 <= j < i
                ==> !(is_letter_byte(#[trigger] t@[j]) && !is_label_byte(t@[j])),
        decreases t@.len() - i,
    {
        let b = t[i];
        let letter = (65 <= b && b <= 90) || (97 <= b && b <= 122);
        let label = 97 <= b && b <= 107;
        if letter && !label {
            return true;
        }
        i = i + 1;
    }
    false
}

/// Exact `i64` addition, `None` where the sum leaves the machine range.
pub open spec fn spec_checked_add(a: i64, b: i64) -> Option<i64> {
    if i64::MIN <= a + b <= i64::MAX {
        Some((a + b) as i64)
    } else {
        None
    }
}

/// An integer-valued label (time delta, bullet id): absent reads as zero,
/// and a present value must be integer text.
pub open spec fn spec_field_int(t: Seq<u8>, c: u8) -> Result<i64, DecodeError> {
    match spec_label_value(t, c) {
        None => Ok(0),
        Some(v) => match spec_parse_i64(v) {
            Some(x) => Ok(x),
            None => Err(DecodeError::BadFrameInteger),
        },
    }
}

/// A geometry-valued label (position delta, bullet-hit position): absent
/// reads as the zero vector.
pub open spec fn spec_field_vec(t: Seq<u8>, c: u8) -> Result<Vector3, DecodeError> {
    match spec_label_value(t, c) {
        None => Ok(Vector3 { x: 0i64, y: 0i64, z: 0i64 }),
        Some(v) => spec_vector3_from(v),
    }
}

/// An angle-delta label: absent reads as zero, the bare `-` placeholder
/// (an artifact of the producer's own rounding) reads as zero, and anything
/// else must be decimal text.
pub open spec fn spec_field_angle(t: Seq<u8>, c: u8) -> Result<i64, DecodeError> {
    match spec_label_value(t, c) {
        None => Ok(0),
        Some(v) => if v == seq![45u8] {
            Ok(0)
        } else {
            match spec_parse_fixed4(v) {
                Some(x) => Ok(x),
                None => Err(DecodeError::BadAngleNumber),
            }
        },
    }
}

/// The event-code label: absent reads as no event; a present value must be
/// integer text naming a known event code.
pub open spec fn spec_field_event(t: Seq<u8>) -> Result<TriggerEvent, DecodeError> {
    match spec_label_value(t, 101u8) {
        None => Ok(TriggerEvent::NoEvent),
        Some(v) => match spec_parse_i64(v) {
            Some(code) => spec_classify_event(code as int),
            None => Err(DecodeError::BadFrameInteger),
        },
    }
}

/// One fully resolved recorded tick: this tick's deltas, the cumulative
/// state through this tick, the per-tick flags and the resolved event.
#[derive(Clone, Copy, Debug, PartialEq, Eq, Structural)]
pub struct GhostFrame {
    pub trigger_event: TriggerEvent,
    pub play_shot_animation: bool,
    /// Cumulative elapsed time through this tick, in ticks of 1/10000 s.
    pub cumulative_time: i64,
    /// This tick's time delta, in ticks of 1/10000 s.
    pub frame_time: i64,
    /// Cumulative position, fixed-point.
    pub pos: Vector3,
    /// This tick's position delta, fixed-point.
    pub pos_change: Vector3,
    pub facing_angle: i64,
    pub facing_angle_change: i64,
    pub camera_pitch: i64,
    pub camera_pitch_change: i64,
    pub grounded: bool,
    pub stomping: bool,
    pub ziplining: bool,
    pub bullet_id: i64,
    pub bullet_hit_pos: Vector3,
    /// 0-based decode order; a freshly made record carries -1 until placed.
    pub index: i64,
}

pub open spec fn spec_default_frame() -> GhostFrame {
    GhostFrame {
        trigger_event: TriggerEvent::NoEvent,
        play_shot_animation: false,
        cumulative_time: 0i64,
        frame_time: 0i64,
        pos: Vector3 { x: 0i64, y: 0i64, z: 0i64 },
        pos_change: Vector3 { x: 0i64, y: 0i64, z: 0i64 },
        facing_angle: 0i64,
        facing_angle_change: 0i64,
        camera_pitch: 0i64,
        camera_pitch_change: 0i64,
        grounded: false,
        stomping: false,
        ziplining: false,
        bullet_id: 0i64,
        bullet_hit_pos: Vector3 { x: 0i64, y: 0i64, z: 0i64 },
        index: -1i64,
    }
}

impl GhostFrame {
    /// A frame with every field at its default.
    pub fn new() -> (r: GhostFrame)
        ensures
            r == spec_default_frame(),
    {
        GhostFrame {
            cumulative_time: 0,
            frame_time: 0,
            index: -1,
            pos: Vector3 { x: 0, y: 0, z: 0 },
            pos_change: Vector3 { x: 0, y: 0, z: 0 },
            facing_angle: 0,
            facing_angle_change: 0,
            camera_pitch: 0,
            camera_pitch_change: 0,
            grounded: false,
            stomping: false,
            ziplining: false,
            trigger_event: TriggerEvent::NoEvent,
            play_shot_animation: false,
            bullet_id: 0,
            bullet_hit_pos: Vector3 { x: 0, y: 0, z: 0 },
        }
    }
}

/// What one frame token denotes, given the cumulative state carried forward
/// from the previous record: the fully resolved record, or the first decode
/// error among label check, field reads (in label order), and the exact
/// cumulative additions.
#[verifier::opaque]
pub open spec fn spec_decode_frame(
    prev_time: i64,
    prev_pos: Vector3,
    prev_facing: i64,
    prev_pitch: i64,
    idx: i64,
    t: Seq<u8>,
) -> Result<GhostFrame, DecodeError> {
    if spec_has_unknown_label(t) {
        Err(DecodeError::UnknownFieldLabel)
    } else {
        match spec_field_int(t, 97u8) {
            Err(e) => Err(e),
            Ok(ft) => match spec_field_vec(t, 98u8) {
                Err(e) => Err(e),
                Ok(dpos) => match spec_field_angle(t, 99u8) {
                    Err(e) => Err(e),
                    Ok(dface) => match spec_field_angle(t, 100u8) {
                        Err(e) => Err(e),
                        Ok(dpitch) => match spec_field_event(t) {
                            Err(e) => Err(e),
                            Ok(ev) => match spec_field_int(t, 106u8) {
                                Err(e) => Err(e),
                                Ok(bid) => match spec_field_vec(t, 107u8) {
                                    Err(e) => Err(e),
                                    Ok(bhp) => match spec_checked_add(prev_time, ft) {
                                        None => Err(DecodeError::NumericOverflow),
                                        Some(ct) => match spec_vec_add(prev_pos, dpos) {
                                            None => Err(DecodeError::NumericOverflow),
                                            Some(pos) => match spec_checked_add(prev_facing, dface) {
                                                None => Err(DecodeError::NumericOverflow),
                                                Some(fa) => match spec_checked_add(prev_pitch, dpitch) {
                                                    None => Err(DecodeError::NumericOverflow),
                                                    Some(cp) => Ok(GhostFrame {
                                                        trigger_event: ev,
                                                        play_shot_animation: spec_flag(t, 102u8),
                                                        cumulative_time: ct,
                                                        frame_time: ft,
                                                        pos: pos,
                                                        pos_change: dpos,
                                                        facing_angle: fa,
                                                        facing_angle_change: dface,
                                                        camera_pitch: cp,
                                                        camera_pitch_change: dpitch,
                                                        grounded: spec_flag(t, 103u8),
                                                        stomping: spec_flag(t, 105u8),
                                                        ziplining: spec_flag(t, 104u8),
                                                        bullet_id: bid,
                                                        bullet_hit_pos: bhp,
                                                        index: idx,
                                                    }),
                                                },
                                            },
                                        },
                                    },
                                },
                            },
                        },
                    },
                },
            },
        }
    }
}

/// Reads an integer-valued label, exactly as `spec_field_int`.
fn field_int(t: &[u8], c: u8) -> (r: Result<i64, DecodeError>)
    ensures
        r == spec_field_int(t@, c),
{
    match label_value(t, c) {
        None => Ok(0),
        Some(v) => match parse_i64_text(v.as_slice()) {
            Some(x) => Ok(x),
            None => Err(DecodeError::BadFrameInteger),
        },
    }
}

/// Reads a geometry-valued label, exactly as `spec_field_vec`.
fn field_vec(t: &[u8], c: u8) -> (r: Result<Vector3, DecodeError>)
    ensures
        r == spec_field_vec(t@, c),
{
    match label_value(t, c) {
        None => Ok(Vector3 { x: 0, y: 0, z: 0 }),
        Some(v) => Vector3::from_string(v.as_slice()),
    }
}

/// Reads an angle-delta label, exactly as `spec_field_angle`.
fn field_angle(t: &[u8], c: u8) -> (r: Result<i64, DecodeError>)
    ensures
        r == spec_field_angle(t@, c),
{
    match label_value(t, c) {
        None => Ok(0),
        Some(v) => {
            if v.len() == 1 && v[0] == 45 {
                proof {
                    assert(v@ =~= seq![45u8]);
                }
                Ok(0)
            } else {
                proof {
                    assert(v@ != seq![45u8]) by {
                        if v@ == seq![45u8] {
                            assert(v@.len() == 1 && v@[0] == 45u8);
                        }
                    }
                }
                match parse_fixed4(v.as_slice()) {
                    Some(x) => Ok(x),
                    None => Err(DecodeError::BadAngleNumber),
                }
            }
        },
    }
}

/// Reads the event-code label, exactly as `spec_field_event`.
fn field_event(t: &[u8]) -> (r: Result<TriggerEvent, DecodeError>)
    ensures
        r == spec_field_event(t@),
{
    match label_value(t, 101) {
        None => Ok(TriggerEvent::NoEvent),
        Some(v) => match parse_i64_text(v.as_slice()) {
            Some(code) => classify_event(code),
            None => Err(DecodeError::BadFrameInteger),
        },
    }
}

/// Reads a flag label's presence, exactly as `spec_flag`.
fn flag_set(t: &[u8], c: u8) -> (r: bool)
    ensures
        r == spec_flag(t@, c),
{
    match find_byte(t, 0, c) {
        Some(_) => true,
        None => false,
    }
}

/// Decodes one frame token against the cumulative state carried forward,
/// exactly as `spec_decode_frame` reads it.
pub fn decode_frame(
    prev_time: i64,
    prev_pos: Vector3,
    prev_facing: i64,
    prev_pitch: i64,
    idx: i64,
    t: &[u8],
) -> (r: Result<GhostFrame, DecodeError>)
    ensures
        r == spec_decode_frame(prev_time, prev_pos, prev_facing, prev_pitch, idx, t@),
{
    proof {
        reveal(spec_decode_frame);
    }
    if has_unknown_label(t) {
        return Err(DecodeError::UnknownFieldLabel);
    }
    let ft = match field_int(t, 97) {
        Ok(v) => v,
        Err(e) => {
            return Err(e);
        },
    };
    let dpos = match field_vec(t, 98) {
        Ok(v) => v,
        Err(e) => {
            return Err(e);
        },
    };
    let dface = match field_angle(t, 99) {
        Ok(v) => v,
        Err(e) => {
            return Err(e);
        },
    };
    let dpitch = match field_angle(t, 100) {
        Ok(v) => v,
        Err(e) => {
            return Err(e);
        },
    };
    let ev = match field_event(t) {
        Ok(v) => v,
        Err(e) => {
            return Err(e);
        },
    };
    let bid = match field_int(t, 106) {
        Ok(v) => v,
        Err(e) => {
            return Err(e);
        },
    };
    let bhp = match field_vec(t, 107) {
        Ok(v) => v,
        Err(e) => {
            return Err(e);
        },
    };
    let ct = match prev_time.checked_add(ft) {
        Some(v) => v,
        None => {
            return Err(DecodeError::NumericOverflow);
        },
    };
    let pos = match prev_pos.try_add(dpos) {
        Some(v) => v,
        None => {
            return Err(DecodeError::NumericOverflow);
        },
    };
    let fa = match prev_facing.checked_add(dface) {
        Some(v) => v,
        None => {
            return Err(DecodeError::NumericOverflow);
        },
    };
    let cp = match prev_pitch.checked_add(dpitch) {
        Some(v) => v,
        None => {
            return Err(DecodeError::NumericOverflow);
        },
    };
    Ok(GhostFrame {
        trigger_event: ev,
        play_shot_animation: flag_set(t, 102),
        cumulative_time: ct,
        frame_time: ft,
        pos: pos,
        pos_change: dpos,
        facing_angle: fa,
        facing_angle_change: dface,
        camera_pitch: cp,
        camera_pitch_change: dpitch,
        grounded: flag_set(t, 103),
        stomping: flag_set(t, 105),
        ziplining: flag_set(t, 104),
        bullet_id: bid,
        bullet_hit_pos: bhp,
        index: idx,
    })
}

} // verus!
