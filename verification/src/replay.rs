//! The replay aggregate and the two decoding passes that fill it.
//!
//! The input is one flat byte string: everything before the first `$` is the
//! header (five `/`-separated fields), everything after is the frame stream
//! (`|`-separated tokens).  The header decoder validates the two literal
//! fields and reads the metadata; the frame decoder resolves each token in
//! order, threading cumulative state forward.  Any failure is fatal: on an
//! error the aggregate is left exactly as it was.

use vstd::prelude::*;
use crate::bytes::{spec_split, split_bytes, views_of, find_byte, copy_range};
use crate::errors::DecodeError;
use crate::frame::{GhostFrame, spec_decode_frame, decode_frame};
use crate::geom::Vector3;
use crate::numtext::{spec_parse_i64, spec_parse_fixed4, parse_i64_text, parse_fixed4};

verus! {

/// A decoded recording: header metadata and the ordered frame records.
pub struct Replay {
    /// Level identifier, verbatim from the header.
    pub level_name: Vec<u8>,
    /// Raw pass-through identifier from the header.
    pub forced_ghost_id: i64,
    /// Declared total duration from the header, fixed-point seconds; kept
    /// independently of the per-frame time deltas, which may disagree.
    pub total_time: i64,
    /// The frame records, in decode order, append-only.
    pub ghost_frames: Vec<GhostFrame>,
}

impl Replay {
    /// An empty aggregate awaiting a decode: placeholder metadata and no
    /// frames.
    pub fn new() -> (r: Replay)
        ensures
            r.level_name@ == Seq::<u8>::empty(),
            r.forced_ghost_id == -1i64,
            r.total_time == -10000i64,
            r.ghost_frames@ == Seq::<GhostFrame>::empty(),
    {
        Replay {
            ghost_frames: Vec::new(),
            level_name: Vec::new(),
            total_time: -10000,
            forced_ghost_id: -1,
        }
    }
}

/// The cumulative state a frame sequence hands to the next token: zero
/// before the first record, the last record's cumulative fields after.
pub open spec fn spec_prev_time(fs: Seq<GhostFrame>) -> i64 {
    if fs.len() == 0 { 0i64 } else { fs.last().cumulative_time }
}

pub open spec fn spec_prev_pos(fs: Seq<GhostFrame>) -> Vector3 {
    if fs.len() == 0 { Vector3 { x: 0i64, y: 0i64, z: 0i64 } } else { fs.last().pos }
}

pub open spec fn spec_prev_facing(fs: Seq<GhostFrame>) -> i64 {
    if fs.len() == 0 { 0i64 } else { fs.last().facing_angle }
}

pub open spec fn spec_prev_pitch(fs: Seq<GhostFrame>) -> i64 {
    if fs.len() == 0 { 0i64 } else { fs.last().camera_pitch }
}

/// What a token sequence decodes to: records in order, each resolved
/// against the cumulative state of the records before it, stopping at the
/// first token that fails.
pub open spec fn spec_decode_frames(tokens: Seq<Seq<u8>>) -> Result<Seq<GhostFrame>, DecodeError>
    decreases tokens.len(),
{
    if tokens.len() == 0 {
        Ok(Seq::<GhostFrame>::empty())
    } else {
        match spec_decode_frames(tokens.drop_last()) {
            Err(e) => Err(e),
            Ok(fs) => match spec_decode_frame(
                spec_prev_time(fs),
                spec_prev_pos(fs),
                spec_prev_facing(fs),
                spec_prev_pitch(fs),
                (tokens.len() - 1) as i64,
                tokens.last(),
            ) {
                Err(e) => Err(e),
                Ok(f) => Ok(fs.push(f)),
            },
        }
    }
}

/// `spec_decode_frames` guarded by the machine limit on record indices.
pub open spec fn spec_parse_frames(tokens: Seq<Seq<u8>>) -> Result<Seq<GhostFrame>, DecodeError> {
    if tokens.len() > i64::MAX {
        Err(DecodeError::NumericOverflow)
    } else {
        spec_decode_frames(tokens)
    }
}

/// Decodes frame tokens in order and appends the records to the aggregate,
/// exactly as `spec_parse_frames` reads them; on any error the aggregate is
/// untouched.
pub fn parse_frames(ghost: &mut Replay, frames: &Vec<Vec<u8>>) -> (r: Result<(), DecodeError>)
    ensures
        match spec_parse_frames(views_of(frames@)) {
            Ok(fs) => r == Ok::<(), DecodeError>(())
                && final(ghost).ghost_frames@ == old(ghost).ghost_frames@ + fs,
            Err(e) => r == Err::<(), DecodeError>(e)
                && final(ghost).ghost_frames@ == old(ghost).ghost_frames@,
        },
        final(ghost).level_name@ == old(ghost).level_name@,
        final(ghost).forced_ghost_id == old(ghost).forced_ghost_id,
        final(ghost).total_time == old(ghost).total_time,
{
    let ghost toks = views_of(frames@);
    if (frames.len() as u128) > (i64::MAX as u128) {
        return Err(DecodeError::NumericOverflow);
    }
    let mut out: Vec<GhostFrame> = Vec::new();
    let mut prev_time: i64 = 0;
    let mut prev_pos = Vector3 { x: 0, y: 0, z: 0 };
    let mut prev_facing: i64 = 0;
    let mut prev_pitch: i64 = 0;
    let mut i: usize = 0;
    proof {
        assert(toks.take(0) =~= Seq::<Seq<u8>>::empty());
    }
    while i < frames.len()
        invariant
            i <= frames@.len(),
            frames@.len() <= i64::MAX,
            toks == views_of(frames@),
            spec_decode_frames(toks.take(i as int)) == Ok::<Seq<GhostFrame>, DecodeError>(out@),
            out@.len() == i,
            prev_time == spec_prev_time(out@),
            prev_pos == spec_prev_pos(out@),
            prev_facing == spec_prev_facing(out@),
            prev_pitch == spec_prev_pitch(out@),
        decreases frames@.len() - i,
    {
        proof {
            assert(toks.take(i + 1).drop_last() =~= toks.take(i as int));
            assert(toks.take(i + 1).last() == toks[i as int]);
            assert(toks[i as int] == frames@[i as int]@);
        }
        let f = match decode_frame(
            prev_time,
            prev_pos,
            prev_facing,
            prev_pitch,
            i as i64,
            frames[i].as_slice(),
        ) {
            Ok(f) => f,
            Err(e) => {
                proof {
                    lemma_decode_frames_prefix_err(toks, i + 1);
                }
                return Err(e);
            },
        };
        out.push(f);
        prev_time = f.cumulative_time;
        prev_pos = f.pos;
        prev_facing = f.facing_angle;
        prev_pitch = f.camera_pitch;
        i = i + 1;
    }
    proof {
        assert(toks.take(i as int) =~= toks);
    }
    let mut j: usize = 0;
    let total = out.len();
    while j < total
        invariant
            j <= total,
            total == out@.len(),
            ghost.ghost_frames@ == old(ghost).ghost_frames@ + out@.take(j as int),
            ghost.level_name@ == old(ghost).level_name@,
            ghost.forced_ghost_id == old(ghost).forced_ghost_id,
            ghost.total_time == old(ghost).total_time,
        decreases total - j,
    {
        let f = out[j];
        ghost.ghost_frames.push(f);
        proof {
            assert(old(ghost).ghost_frames@ + out@.take(j + 1)
                =~= (old(ghost).ghost_frames@ + out@.take(j as int)).push(out@[j as int]));
        }
        j = j + 1;
    }
    proof {
        assert(out@.take(total as int) =~= out@);
    }
    Ok(())
}

/// Once a prefix of the token sequence fails, the whole sequence fails with
/// the same error.
#[verifier::rlimit(100)]
pub proof fn lemma_decode_frames_prefix_err(tokens: Seq<Seq<u8>>, i: int)
    requires
        0 <= i <= tokens.len(),
        spec_decode_frames(tokens.take(i)) is Err,
    ensures
        spec_decode_frames(tokens) == spec_decode_frames(tokens.take(i)),
    decreases tokens.len() - i,
{
    if i < tokens.len() {
        assert(tokens.take(i + 1).drop_last() =~= tokens.take(i));
        lemma_decode_frames_prefix_err(tokens, i + 1);
    } else {
        assert(tokens.take(i) =~= tokens);
    }
}

/// The nominal per-tick time literal the fifth header field must equal.
pub open spec fn spec_tick_literal() -> Seq<u8> {
    seq![48u8, 46u8, 48u8, 51u8, 51u8, 51u8, 51u8]
}

/// What the header denotes.  It must split on `/` into exactly five
/// fields, validated positionally: the `2` sentinel, the forced identifier
/// (integer), the level name (verbatim), the declared total duration
/// (decimal), the nominal tick-time literal.  Any other field count is a
/// decode error.
pub open spec fn spec_parse_header(head: Seq<u8>) -> Result<(i64, Seq<u8>, i64), DecodeError> {
    let fields = spec_split(head, 47u8);
    if fields.len() != 5 {
        Err(DecodeError::BadHeaderFieldCount)
    } else if fields[0] != seq![50u8] {
        Err(DecodeError::BadHeaderSentinel)
    } else if spec_parse_i64(fields[1]) is None {
        Err(DecodeError::BadHeaderNumber)
    } else if spec_parse_fixed4(fields[3]) is None {
        Err(DecodeError::BadHeaderNumber)
    } else if fields[4] != spec_tick_literal() {
        Err(DecodeError::BadHeaderTickTime)
    } else {
        Ok((spec_parse_i64(fields[1]).unwrap(), fields[2], spec_parse_fixed4(fields[3]).unwrap()))
    }
}

/// Compares two byte strings for equality.
fn bytes_eq(a: &[u8], b: &[u8]) -> (r: bool)
    ensures
        r == (a@ == b@),
{
    if a.len() != b.len() {
        proof {
            assert(a@ != b@);
        }
        return false;
    }
    let mut i: usize = 0;
    while i < a.len()
        invariant
            i <= a@.len(),
            a@.len() == b@.len(),
            forall|j: int| 0 <= j < i ==> a@[j] == b@[j],
        decreases a@.len() - i,
    {
        if a[i] != b[i] {
            proof {
                assert(a@[i as int] != b@[i as int]);
            }
            return false;
        }
        i = i + 1;
    }
    proof {
        assert(a@ =~= b@);
    }
    true
}

/// Decodes the header segment, exactly as `spec_parse_header` reads it.
pub fn parse_header(head: &[u8]) -> (r: Result<(i64, Vec<u8>, i64), DecodeError>)
    ensures
        match r {
            Ok(t) => spec_parse_header(head@)
                == Ok::<(i64, Seq<u8>, i64), DecodeError>((t.0, t.1@, t.2)),
            Err(e) => spec_parse_header(head@)
                == Err::<(i64, Seq<u8>, i64), DecodeError>(e),
        },
{
    let fields = split_bytes(head, 47);
    proof {
        assert(views_of(fields@).len() == fields@.len());
    }
    if fields.len() != 5 {
        return Err(DecodeError::BadHeaderFieldCount);
    }
    proof {
        assert(views_of(fields@)[0] == fields@[0]@);
        assert(views_of(fields@)[1] == fields@[1]@);
        assert(views_of(fields@)[2] == fields@[2]@);
        assert(views_of(fields@)[3] == fields@[3]@);
        assert(views_of(fields@)[4] == fields@[4]@);
    }
    let sentinel: Vec<u8> = vec![50u8];
    proof {
        assert(sentinel@ =~= seq![50u8]);
    }
    if !bytes_eq(fields[0].as_slice(), sentinel.as_slice()) {
        return Err(DecodeError::BadHeaderSentinel);
    }
    let id = match parse_i64_text(fields[1].as_slice()) {
        Some(v) => v,
        None => {
            return Err(DecodeError::BadHeaderNumber);
        },
    };
    let total = match parse_fixed4(fields[3].as_slice()) {
        Some(v) => v,
        None => {
            return Err(DecodeError::BadHeaderNumber);
        },
    };
    let tick: Vec<u8> = vec![48u8, 46u8, 48u8, 51u8, 51u8, 51u8, 51u8];
    proof {
        assert(tick@ =~= spec_tick_literal());
    }
    if !bytes_eq(fields[4].as_slice(), tick.as_slice()) {
        return Err(DecodeError::BadHeaderTickTime);
    }
    let f = &fields[2];
    let name: Vec<u8> = copy_range(f.as_slice(), 0, f.len());
    proof {
        assert(name@ =~= fields@[2 as int]@);
    }
    Ok((id, name, total))
}

/// Whether the byte occurs in the sequence.
pub open spec fn spec_contains_byte(s: Seq<u8>, d: u8) -> bool {
    exists|i: int| 0 <= i < s.len() && #[trigger] s[i] == d
}

/// What a whole input buffer denotes: the header metadata and the frame
/// records, or the first decode error; an input without the `$` delimiter
/// denotes nothing but that error.
pub open spec fn spec_parse(buffer: Seq<u8>) -> Result<(i64, Seq<u8>, i64, Seq<GhostFrame>), DecodeError> {
    if !spec_contains_byte(buffer, 36u8) {
        Err(DecodeError::MissingHeaderDelimiter)
    } else {
        let i = choose|i: int| 0 <= i < buffer.len() && #[trigger] buffer[i] == 36u8
            && forall|j: int| 0 <= j < i ==> buffer[j] != 36u8;
        let head = buffer.take(i);
        let tail = buffer.subrange(i + 1, buffer.len() as int);
        match spec_parse_header(head) {
            Err(e) => Err(e),
            Ok((id, name, total)) => match spec_parse_frames(spec_split(tail, 124u8)) {
                Err(e) => Err(e),
                Ok(fs) => Ok((id, name, total, fs)),
            },
        }
    }
}

/// Decodes a whole input buffer into the aggregate, exactly as `spec_parse`
/// reads it: on success the header metadata is stored and the frame records
/// are appended in order; on any error the aggregate is exactly as it was.
pub fn parse(ghost: &mut Replay, buffer: &[u8]) -> (r: Result<(), DecodeError>)
    ensures
        match spec_parse(buffer@) {
            Ok(t) => r == Ok::<(), DecodeError>(())
                && final(ghost).forced_ghost_id == t.0
                && final(ghost).level_name@ == t.1
                && final(ghost).total_time == t.2
                && final(ghost).ghost_frames@ == old(ghost).ghost_frames@ + t.3,
            Err(e) => r == Err::<(), DecodeError>(e)
                && final(ghost).forced_ghost_id == old(ghost).forced_ghost_id
                && final(ghost).level_name@ == old(ghost).level_name@
                && final(ghost).total_time == old(ghost).total_time
                && final(ghost).ghost_frames@ == old(ghost).ghost_frames@,
        },
{
    let n = buffer.len();
    let sep = match find_byte(buffer, 0, 36) {
        Some(p) => p,
        None => {
            proof {
                assert(!spec_contains_byte(buffer@, 36u8));
            }
            return Err(DecodeError::MissingHeaderDelimiter);
        },
    };
    proof {
        assert(spec_contains_byte(buffer@, 36u8));
        let i = choose|i: int| 0 <= i < buffer@.len() && #[trigger] buffer@[i] == 36u8
            && forall|j: int| 0 <= j < i ==> buffer@[j] != 36u8;
        assert(buffer@[sep as int] == 36u8
            && forall|j: int| 0 <= j < sep ==> buffer@[j] != 36u8);
        assert(i == sep) by {
            if i < sep {
                assert(buffer@[i] == 36u8);
            }
            if i > sep {
                assert(buffer@[sep as int] != 36u8);
            }
        }
    }
    let head = copy_range(buffer, 0, sep);
    let tail = copy_range(buffer, sep + 1, n);
    proof {
        assert(head@ =~= buffer@.take(sep as int));
    }
    let (id, name, total) = match parse_header(head.as_slice()) {
        Ok(t) => t,
        Err(e) => {
            return Err(e);
        },
    };
    let toks = split_bytes(tail.as_slice(), 124);
    match parse_frames(ghost, &toks) {
        Ok(()) => {},
        Err(e) => {
            return Err(e);
        },
    }
    ghost.forced_ghost_id = id;
    ghost.level_name = name;
    ghost.total_time = total;
    Ok(())
}

} // verus!
