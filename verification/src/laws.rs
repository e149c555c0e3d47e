//! The library's cross-cutting laws, stated and proved once over the spec
//! functions that the decoding contracts speak of.

use vstd::prelude::*;
use crate::bytes::{spec_split, lemma_split_extend_run, lemma_split_delim_free,
    lemma_split_push_delim};
use crate::errors::DecodeError;
use crate::frame::{GhostFrame, spec_decode_frame};
use crate::geom::Vector3;
use crate::numtext::{spec_parse_i64, spec_parse_fixed4};
use crate::replay::{spec_decode_frames, spec_parse_frames, spec_parse_header, spec_parse,
    spec_contains_byte, spec_prev_time, spec_prev_pos, spec_prev_facing, spec_prev_pitch,
    spec_tick_literal};

verus! {

/// Joins five header fields with the `/` separator.
pub open spec fn spec_join5(f0: Seq<u8>, f1: Seq<u8>, f2: Seq<u8>, f3: Seq<u8>, f4: Seq<u8>) -> Seq<u8> {
    f0 + seq![47u8] + f1 + seq![47u8] + f2 + seq![47u8] + f3 + seq![47u8] + f4
}

/// Splitting a five-field join on the separator recovers the five fields,
/// when none of them holds the separator.
pub proof fn lemma_split_join5(f0: Seq<u8>, f1: Seq<u8>, f2: Seq<u8>, f3: Seq<u8>, f4: Seq<u8>)
    requires
        forall|j: int| 0 <= j < f0.len() ==> f0[j] != 47u8,
        forall|j: int| 0 <= j < f1.len() ==> f1[j] != 47u8,
        forall|j: int| 0 <= j < f2.len() ==> f2[j] != 47u8,
        forall|j: int| 0 <= j < f3.len() ==> f3[j] != 47u8,
        forall|j: int| 0 <= j < f4.len() ==> f4[j] != 47u8,
    ensures
        spec_split(spec_join5(f0, f1, f2, f3, f4), 47u8) == seq![f0, f1, f2, f3, f4],
{
    let d = 47u8;
    let s0 = f0;
    let s1 = s0 + seq![d];
    let s2 = s1 + f1;
    let s3 = s2 + seq![d];
    let s4 = s3 + f2;
    let s5 = s4 + seq![d];
    let s6 = s5 + f3;
    let s7 = s6 + seq![d];
    let s8 = s7 + f4;
    lemma_split_delim_free(f0, d);
    lemma_split_push_delim(s0, d);
    assert(s0.push(d) =~= s1);
    assert(spec_split(s1, d) =~~= seq![f0, Seq::<u8>::empty()]);
    lemma_split_extend_run(s1, d, f1);
    assert(Seq::<u8>::empty() + f1 =~= f1);
    assert(spec_split(s2, d) =~~= seq![f0, f1]);
    lemma_split_push_delim(s2, d);
    assert(s2.push(d) =~= s3);
    assert(spec_split(s3, d) =~~= seq![f0, f1, Seq::<u8>::empty()]);
    lemma_split_extend_run(s3, d, f2);
    assert(Seq::<u8>::empty() + f2 =~= f2);
    assert(spec_split(s4, d) =~~= seq![f0, f1, f2]);
    lemma_split_push_delim(s4, d);
    assert(s4.push(d) =~= s5);
    assert(spec_split(s5, d) =~~= seq![f0, f1, f2, Seq::<u8>::empty()]);
    lemma_split_extend_run(s5, d, f3);
    assert(Seq::<u8>::empty() + f3 =~= f3);
    assert(spec_split(s6, d) =~~= seq![f0, f1, f2, f3]);
    lemma_split_push_delim(s6, d);
    assert(s6.push(d) =~= s7);
    assert(spec_split(s7, d) =~~= seq![f0, f1, f2, f3, Seq::<u8>::empty()]);
    lemma_split_extend_run(s7, d, f4);
    assert(Seq::<u8>::empty() + f4 =~= f4);
    assert(spec_split(s8, d) =~~= seq![f0, f1, f2, f3, f4]);
    assert(spec_join5(f0, f1, f2, f3, f4) =~= s8);
}

/// Header round-trip: a synthetic five-field header whose literal fields
/// match and whose numeric fields read as numbers decodes to exactly its
/// forced identifier, level name and total duration.
pub proof fn lemma_header_round_trip(f1: Seq<u8>, f2: Seq<u8>, f3: Seq<u8>)
    requires
        forall|j: int| 0 <= j < f1.len() ==> f1[j] != 47u8,
        forall|j: int| 0 <= j < f2.len() ==> f2[j] != 47u8,
        forall|j: int| 0 <= j < f3.len() ==> f3[j] != 47u8,
        spec_parse_i64(f1) is Some,
        spec_parse_fixed4(f3) is Some,
    ensures
        spec_parse_header(spec_join5(seq![50u8], f1, f2, f3, spec_tick_literal()))
            == Ok::<(i64, Seq<u8>, i64), DecodeError>((
            spec_parse_i64(f1).unwrap(),
            f2,
            spec_parse_fixed4(f3).unwrap(),
        )),
{
    assert(forall|j: int| 0 <= j < seq![50u8].len() ==> seq![50u8][j] != 47u8);
    assert(forall|j: int| 0 <= j < spec_tick_literal().len() ==> spec_tick_literal()[j] != 47u8);
    lemma_split_join5(seq![50u8], f1, f2, f3, spec_tick_literal());
}

/// Header rejection: any header whose first field is not the sentinel
/// literal is refused, whatever the rest holds.
pub proof fn lemma_header_rejects_sentinel(
    f0: Seq<u8>,
    f1: Seq<u8>,
    f2: Seq<u8>,
    f3: Seq<u8>,
    f4: Seq<u8>,
)
    requires
        forall|j: int| 0 <= j < f0.len() ==> f0[j] != 47u8,
        forall|j: int| 0 <= j < f1.len() ==> f1[j] != 47u8,
        forall|j: int| 0 <= j < f2.len() ==> f2[j] != 47u8,
        forall|j: int| 0 <= j < f3.len() ==> f3[j] != 47u8,
        forall|j: int| 0 <= j < f4.len() ==> f4[j] != 47u8,
        f0 != seq![50u8],
    ensures
        spec_parse_header(spec_join5(f0, f1, f2, f3, f4))
            == Err::<(i64, Seq<u8>, i64), DecodeError>(DecodeError::BadHeaderSentinel),
{
    lemma_split_join5(f0, f1, f2, f3, f4);
}

/// Header rejection: a header that is well formed up to its fifth field but
/// whose fifth field is not the nominal tick-time literal is refused.
pub proof fn lemma_header_rejects_tick_literal(
    f1: Seq<u8>,
    f2: Seq<u8>,
    f3: Seq<u8>,
    f4: Seq<u8>,
)
    requires
        forall|j: int| 0 <= j < f1.len() ==> f1[j] != 47u8,
        forall|j: int| 0 <= j < f2.len() ==> f2[j] != 47u8,
        forall|j: int| 0 <= j < f3.len() ==> f3[j] != 47u8,
        forall|j: int| 0 <= j < f4.len() ==> f4[j] != 47u8,
        spec_parse_i64(f1) is Some,
        spec_parse_fixed4(f3) is Some,
        f4 != spec_tick_literal(),
    ensures
        spec_parse_header(spec_join5(seq![50u8], f1, f2, f3, f4))
            == Err::<(i64, Seq<u8>, i64), DecodeError>(DecodeError::BadHeaderTickTime),
{
    assert(forall|j: int| 0 <= j < seq![50u8].len() ==> seq![50u8][j] != 47u8);
    lemma_split_join5(seq![50u8], f1, f2, f3, f4);
}

/// A record resolved from a token carries cumulative fields that are
/// exactly the carried-forward state plus its own deltas.
pub proof fn lemma_decode_frame_cumulative(
    prev_time: i64,
    prev_pos: Vector3,
    prev_facing: i64,
    prev_pitch: i64,
    idx: i64,
    t: Seq<u8>,
    f: GhostFrame,
)
    requires
        spec_decode_frame(prev_time, prev_pos, prev_facing, prev_pitch, idx, t)
            == Ok::<GhostFrame, DecodeError>(f),
    ensures
        f.cumulative_time == prev_time + f.frame_time,
        f.pos.x == prev_pos.x + f.pos_change.x,
        f.pos.y == prev_pos.y + f.pos_change.y,
        f.pos.z == prev_pos.z + f.pos_change.z,
        f.facing_angle == prev_facing + f.facing_angle_change,
        f.camera_pitch == prev_pitch + f.camera_pitch_change,
        f.index == idx,
{
    reveal(spec_decode_frame);
}

/// Cumulative invariant: in any decoded frame sequence, every record's
/// cumulative time, position and angles are exactly the previous record's
/// plus its own deltas, and the first record's cumulative fields equal its
/// own deltas.  Record indices are the decode order.
#[verifier::rlimit(100)]
pub proof fn lemma_cumulative_invariant(tokens: Seq<Seq<u8>>, fs: Seq<GhostFrame>)
    requires
        tokens.len() <= i64::MAX,
        spec_decode_frames(tokens) == Ok::<Seq<GhostFrame>, DecodeError>(fs),
    ensures
        forall|i: int| 0 < i < fs.len() ==> #[trigger] fs[i].cumulative_time
            == fs[i - 1].cumulative_time + fs[i].frame_time,
        forall|i: int| 0 < i < fs.len() ==> #[trigger] fs[i].pos.x == fs[i - 1].pos.x + fs[i].pos_change.x,
        forall|i: int| 0 < i < fs.len() ==> #[trigger] fs[i].pos.y == fs[i - 1].pos.y + fs[i].pos_change.y,
        forall|i: int| 0 < i < fs.len() ==> #[trigger] fs[i].pos.z == fs[i - 1].pos.z + fs[i].pos_change.z,
        forall|i: int| 0 < i < fs.len() ==> #[trigger] fs[i].facing_angle
            == fs[i - 1].facing_angle + fs[i].facing_angle_change,
        forall|i: int| 0 < i < fs.len() ==> #[trigger] fs[i].camera_pitch
            == fs[i - 1].camera_pitch + fs[i].camera_pitch_change,
        fs.len() > 0 ==> fs[0].cumulative_time == fs[0].frame_time
            && fs[0].pos == fs[0].pos_change
            && fs[0].facing_angle == fs[0].facing_angle_change
            && fs[0].camera_pitch == fs[0].camera_pitch_change,
        forall|i: int| 0 <= i < fs.len() ==> #[trigger] fs[i].index == i,
        fs.len() == tokens.len(),
    decreases tokens.len(),
{
    if tokens.len() > 0 {
        let butfs = spec_decode_frames(tokens.drop_last()).unwrap();
        lemma_cumulative_invariant(tokens.drop_last(), butfs);
        let f = fs.last();
        lemma_decode_frame_cumulative(
            spec_prev_time(butfs),
            spec_prev_pos(butfs),
            spec_prev_facing(butfs),
            spec_prev_pitch(butfs),
            (tokens.len() - 1) as i64,
            tokens.last(),
            f,
        );
        assert(fs =~= butfs.push(f));
        assert(forall|i: int| 0 <= i < butfs.len() ==> fs[i] == butfs[i]);
        if butfs.len() > 0 {
            assert(spec_prev_time(butfs) == fs[fs.len() - 2].cumulative_time);
            assert(spec_prev_pos(butfs) == fs[fs.len() - 2].pos);
        }
    }
}

/// Idempotence: decoding is a pure function of the input bytes, so two
/// decodes of the same input resolve to identical replay aggregates.
pub proof fn lemma_parse_deterministic(
    buffer: Seq<u8>,
    r1: Result<(i64, Seq<u8>, i64, Seq<GhostFrame>), DecodeError>,
    r2: Result<(i64, Seq<u8>, i64, Seq<GhostFrame>), DecodeError>,
)
    requires
        r1 == spec_parse(buffer),
        r2 == spec_parse(buffer),
    ensures
        r1 == r2,
{
}

/// Cumulative invariant at the decoder's door: in any successfully decoded
/// input, every record's cumulative time, position and angles are exactly
/// the previous record's plus its own deltas, and the first record's
/// cumulative fields equal its own deltas.
pub proof fn lemma_parse_cumulative_invariant(buffer: Seq<u8>)
    requires
        spec_parse(buffer) is Ok,
    ensures
        ({
            let fs = spec_parse(buffer).unwrap().3;
            &&& forall|i: int| 0 < i < fs.len() ==> #[trigger] fs[i].cumulative_time
                == fs[i - 1].cumulative_time + fs[i].frame_time
            &&& forall|i: int| 0 < i < fs.len() ==> #[trigger] fs[i].pos.x
                == fs[i - 1].pos.x + fs[i].pos_change.x
            &&& forall|i: int| 0 < i < fs.len() ==> #[trigger] fs[i].pos.y
                == fs[i - 1].pos.y + fs[i].pos_change.y
            &&& forall|i: int| 0 < i < fs.len() ==> #[trigger] fs[i].pos.z
                == fs[i - 1].pos.z + fs[i].pos_change.z
            &&& forall|i: int| 0 < i < fs.len() ==> #[trigger] fs[i].facing_angle
                == fs[i - 1].facing_angle + fs[i].facing_angle_change
            &&& forall|i: int| 0 < i < fs.len() ==> #[trigger] fs[i].camera_pitch
                == fs[i - 1].camera_pitch + fs[i].camera_pitch_change
            &&& fs.len() > 0 ==> fs[0].cumulative_time == fs[0].frame_time
                && fs[0].pos == fs[0].pos_change
                && fs[0].facing_angle == fs[0].facing_angle_change
                && fs[0].camera_pitch == fs[0].camera_pitch_change
            &&& forall|i: int| 0 <= i < fs.len() ==> #[trigger] fs[i].index == i
        }),
{
    let fs = spec_parse(buffer).unwrap().3;
    let i = choose|i: int| 0 <= i < buffer.len() && #[trigger] buffer[i] == 36u8
        && forall|j: int| 0 <= j < i ==> buffer[j] != 36u8;
    let tail = buffer.subrange(i + 1, buffer.len() as int);
    let tokens = spec_split(tail, 124u8);
    assert(spec_parse_frames(tokens) == Ok::<Seq<GhostFrame>, DecodeError>(fs));
    lemma_cumulative_invariant(tokens, fs);
}

/// Concatenation holds a byte only where one of its parts does.
proof fn lemma_concat_lacks_byte(a: Seq<u8>, b: Seq<u8>, d: u8)
    requires
        forall|j: int| 0 <= j < a.len() ==> a[j] != d,
        forall|j: int| 0 <= j < b.len() ==> b[j] != d,
    ensures
        forall|j: int| 0 <= j < (a + b).len() ==> (a + b)[j] != d,
{
    assert forall|j: int| 0 <= j < (a + b).len() implies (a + b)[j] != d by {
        if j < a.len() {
            assert((a + b)[j] == a[j]);
        } else {
            assert((a + b)[j] == b[j - a.len()]);
        }
    }
}

/// A five-field join holds a byte only where a field does, provided the
/// byte is not the separator itself.
proof fn lemma_join5_lacks_byte(f0: Seq<u8>, f1: Seq<u8>, f2: Seq<u8>, f3: Seq<u8>, f4: Seq<u8>, d: u8)
    requires
        d != 47u8,
        forall|j: int| 0 <= j < f0.len() ==> f0[j] != d,
        forall|j: int| 0 <= j < f1.len() ==> f1[j] != d,
        forall|j: int| 0 <= j < f2.len() ==> f2[j] != d,
        forall|j: int| 0 <= j < f3.len() ==> f3[j] != d,
        forall|j: int| 0 <= j < f4.len() ==> f4[j] != d,
    ensures
        forall|j: int| 0 <= j < spec_join5(f0, f1, f2, f3, f4).len()
            ==> spec_join5(f0, f1, f2, f3, f4)[j] != d,
{
    let sep = seq![47u8];
    assert(forall|j: int| 0 <= j < sep.len() ==> sep[j] != d);
    lemma_concat_lacks_byte(f0, sep, d);
    lemma_concat_lacks_byte(f0 + sep, f1, d);
    lemma_concat_lacks_byte(f0 + sep + f1, sep, d);
    lemma_concat_lacks_byte(f0 + sep + f1 + sep, f2, d);
    lemma_concat_lacks_byte(f0 + sep + f1 + sep + f2, sep, d);
    lemma_concat_lacks_byte(f0 + sep + f1 + sep + f2 + sep, f3, d);
    lemma_concat_lacks_byte(f0 + sep + f1 + sep + f2 + sep + f3, sep, d);
    lemma_concat_lacks_byte(f0 + sep + f1 + sep + f2 + sep + f3 + sep, f4, d);
}

/// Whole-input round-trip: a synthetic input whose header is a valid
/// five-field join and whose frame stream decodes resolves to exactly the
/// header's forced identifier, its level name verbatim, its total duration,
/// and the frame stream's records.
pub proof fn lemma_parse_round_trip(
    f1: Seq<u8>,
    f2: Seq<u8>,
    f3: Seq<u8>,
    rest: Seq<u8>,
    fs: Seq<GhostFrame>,
)
    requires
        forall|j: int| 0 <= j < f1.len() ==> f1[j] != 47u8 && f1[j] != 36u8,
        forall|j: int| 0 <= j < f2.len() ==> f2[j] != 47u8 && f2[j] != 36u8,
        forall|j: int| 0 <= j < f3.len() ==> f3[j] != 47u8 && f3[j] != 36u8,
        spec_parse_i64(f1) is Some,
        spec_parse_fixed4(f3) is Some,
        spec_parse_frames(spec_split(rest, 124u8)) == Ok::<Seq<GhostFrame>, DecodeError>(fs),
    ensures
        spec_parse(spec_join5(seq![50u8], f1, f2, f3, spec_tick_literal()) + seq![36u8] + rest)
            == Ok::<(i64, Seq<u8>, i64, Seq<GhostFrame>), DecodeError>((
                spec_parse_i64(f1).unwrap(),
                f2,
                spec_parse_fixed4(f3).unwrap(),
                fs,
            )),
{
    let head = spec_join5(seq![50u8], f1, f2, f3, spec_tick_literal());
    let buffer = head + seq![36u8] + rest;
    assert(forall|j: int| 0 <= j < seq![50u8].len() ==> seq![50u8][j] != 36u8);
    assert(forall|j: int| 0 <= j < spec_tick_literal().len() ==> spec_tick_literal()[j] != 36u8);
    lemma_join5_lacks_byte(seq![50u8], f1, f2, f3, spec_tick_literal(), 36u8);
    let sep = head.len() as int;
    assert(buffer[sep] == 36u8);
    assert(forall|j: int| 0 <= j < sep ==> buffer[j] == head[j]);
    assert(forall|j: int| 0 <= j < sep ==> buffer[j] != 36u8);
    assert(spec_contains_byte(buffer, 36u8));
    let i = choose|i: int| 0 <= i < buffer.len() && #[trigger] buffer[i] == 36u8
        && forall|j: int| 0 <= j < i ==> buffer[j] != 36u8;
    assert(i == sep) by {
        if i < sep {
            assert(buffer[i] == 36u8);
        }
        if i > sep {
            assert(buffer[sep] != 36u8);
        }
    }
    assert(buffer.take(sep) =~= head);
    assert(buffer.subrange(sep + 1, buffer.len() as int) =~= rest);
    lemma_header_round_trip(f1, f2, f3);
}

} // verus!
