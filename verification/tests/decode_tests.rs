use ghost_replay::errors::DecodeError;
use ghost_replay::events::{classify_event, BulletType, DiscardAbility, TriggerEvent};
use ghost_replay::frame::GhostFrame;
use ghost_replay::geom::Vector3;
use ghost_replay::numtext::{parse_fixed4, parse_i64_text};
use ghost_replay::replay::{parse, parse_frames, parse_header, Replay};

// One whole-number unit of a fixed-point quantity (scale 10^4).
const ONE: i64 = 10000;

#[test]
fn geometry_three_components() {
    let v = Vector3::from_string(b"1,2,3").unwrap();
    assert_eq!(v.x, ONE);
    assert_eq!(v.y, 2 * ONE);
    assert_eq!(v.z, 3 * ONE);
}

#[test]
fn geometry_z_defaults_to_zero() {
    let v = Vector3::from_string(b"1,2").unwrap();
    assert_eq!(v.x, ONE);
    assert_eq!(v.y, 2 * ONE);
    assert_eq!(v.z, 0);
}

#[test]
fn geometry_fourth_component_rejected() {
    assert_eq!(
        Vector3::from_string(b"1,2,3,4"),
        Err(DecodeError::TooManyVectorFields)
    );
}

#[test]
fn geometry_non_numeric_component_zeroed() {
    let v = Vector3::from_string(b"x,2,3").unwrap();
    assert_eq!(v.x, 0);
    assert_eq!(v.y, 2 * ONE);
    assert_eq!(v.z, 3 * ONE);
}

#[test]
fn geometry_fractional_and_negative() {
    let v = Vector3::from_string(b"-1.5,0.0416,2").unwrap();
    assert_eq!(v.x, -15000);
    assert_eq!(v.y, 416);
    assert_eq!(v.z, 2 * ONE);
}

#[test]
fn event_discard_unlisted_step_rejected() {
    assert_eq!(classify_event(1009), Err(DecodeError::InvalidDiscardAbility));
}

#[test]
fn event_discard_listed_step() {
    assert_eq!(
        classify_event(1010),
        Ok(TriggerEvent::Discard(DiscardAbility::Jump))
    );
    assert_eq!(
        classify_event(1190),
        Ok(TriggerEvent::Discard(DiscardAbility::Fireball))
    );
}

#[test]
fn event_bullet_hit() {
    assert_eq!(classify_event(2000), Ok(TriggerEvent::BulletHit));
}

#[test]
fn event_just_past_bullet_range_rejected() {
    assert_eq!(classify_event(21), Err(DecodeError::UnknownTriggerEvent));
}

#[test]
fn event_bullet_range_and_subcodes() {
    assert_eq!(classify_event(10), Ok(TriggerEvent::Bullet(BulletType::Swipe)));
    assert_eq!(classify_event(14), Ok(TriggerEvent::Bullet(BulletType::Mine)));
    assert_eq!(classify_event(15), Err(DecodeError::InvalidBulletType));
    assert_eq!(classify_event(20), Err(DecodeError::InvalidBulletType));
}

#[test]
fn event_jump_land_and_unknown() {
    assert_eq!(classify_event(1), Ok(TriggerEvent::Jump));
    assert_eq!(classify_event(3), Ok(TriggerEvent::Land));
    assert_eq!(classify_event(0), Err(DecodeError::UnknownTriggerEvent));
    assert_eq!(classify_event(999), Err(DecodeError::UnknownTriggerEvent));
    assert_eq!(classify_event(1191), Err(DecodeError::UnknownTriggerEvent));
}

#[test]
fn integer_text_parses() {
    assert_eq!(parse_i64_text(b"416"), Some(416));
    assert_eq!(parse_i64_text(b"-7"), Some(-7));
    assert_eq!(parse_i64_text(b"+7"), Some(7));
    assert_eq!(parse_i64_text(b""), None);
    assert_eq!(parse_i64_text(b"1.5"), None);
    assert_eq!(parse_i64_text(b"9223372036854775807"), Some(i64::MAX));
    assert_eq!(parse_i64_text(b"-9223372036854775808"), Some(i64::MIN));
    assert_eq!(parse_i64_text(b"9223372036854775808"), None);
}

#[test]
fn fixed_point_text_parses() {
    assert_eq!(parse_fixed4(b"0.0416"), Some(416));
    assert_eq!(parse_fixed4(b"-1.5"), Some(-15000));
    assert_eq!(parse_fixed4(b"12.5"), Some(125000));
    assert_eq!(parse_fixed4(b"2"), Some(20000));
    assert_eq!(parse_fixed4(b".5"), Some(5000));
    assert_eq!(parse_fixed4(b"1."), Some(10000));
    assert_eq!(parse_fixed4(b"-"), None);
    assert_eq!(parse_fixed4(b""), None);
    assert_eq!(parse_fixed4(b"1.2.3"), None);
}

#[test]
fn header_round_trip_values() {
    let r = parse_header(b"2/7/TestLevel/12.5/0.03333").unwrap();
    assert_eq!(r.0, 7);
    assert_eq!(r.1, b"TestLevel".to_vec());
    assert_eq!(r.2, 125000);
}

#[test]
fn header_sentinel_mismatch_rejected() {
    assert!(matches!(
        parse_header(b"3/7/TestLevel/12.5/0.03333"),
        Err(DecodeError::BadHeaderSentinel)
    ));
}

#[test]
fn header_tick_literal_mismatch_rejected() {
    assert!(matches!(
        parse_header(b"2/7/TestLevel/12.5/0.03334"),
        Err(DecodeError::BadHeaderTickTime)
    ));
}

#[test]
fn header_extra_field_rejected() {
    assert!(matches!(
        parse_header(b"2/7/TestLevel/12.5/0.03333/extra"),
        Err(DecodeError::BadHeaderFieldCount)
    ));
}

#[test]
fn header_non_numeric_id_rejected() {
    assert!(matches!(
        parse_header(b"2/seven/TestLevel/12.5/0.03333"),
        Err(DecodeError::BadHeaderNumber)
    ));
}

#[test]
fn parse_requires_delimiter() {
    let mut g = Replay::new();
    assert_eq!(
        parse(&mut g, b"2/7/Level/12.5/0.03333"),
        Err(DecodeError::MissingHeaderDelimiter)
    );
    assert_eq!(g.ghost_frames.len(), 0);
}

#[test]
fn parse_full_input_resolves_frames() {
    let mut g = Replay::new();
    parse(&mut g, b"2/7/TestLevel/12.5/0.03333$a416b1,2,3c0.5d-e1fg|a300b0,1,0").unwrap();
    assert_eq!(g.forced_ghost_id, 7);
    assert_eq!(g.level_name, b"TestLevel".to_vec());
    assert_eq!(g.total_time, 125000);
    assert_eq!(g.ghost_frames.len(), 2);

    let f0 = &g.ghost_frames[0];
    assert_eq!(f0.index, 0);
    assert_eq!(f0.frame_time, 416);
    assert_eq!(f0.cumulative_time, 416);
    assert_eq!(f0.pos_change, Vector3 { x: ONE, y: 2 * ONE, z: 3 * ONE });
    assert_eq!(f0.pos, Vector3 { x: ONE, y: 2 * ONE, z: 3 * ONE });
    assert_eq!(f0.facing_angle_change, 5000);
    assert_eq!(f0.facing_angle, 5000);
    assert_eq!(f0.camera_pitch_change, 0);
    assert_eq!(f0.trigger_event, TriggerEvent::Jump);
    assert!(f0.play_shot_animation);
    assert!(f0.grounded);
    assert!(!f0.ziplining);
    assert!(!f0.stomping);

    let f1 = &g.ghost_frames[1];
    assert_eq!(f1.index, 1);
    assert_eq!(f1.frame_time, 300);
    assert_eq!(f1.cumulative_time, 716);
    assert_eq!(f1.pos, Vector3 { x: ONE, y: 3 * ONE, z: 3 * ONE });
    assert_eq!(f1.facing_angle, 5000);
    assert_eq!(f1.trigger_event, TriggerEvent::NoEvent);
}

#[test]
fn parse_bullet_fields() {
    let mut g = Replay::new();
    parse(&mut g, b"2/0/L/1/0.03333$e2000j42k1,2,3").unwrap();
    let f = &g.ghost_frames[0];
    assert_eq!(f.trigger_event, TriggerEvent::BulletHit);
    assert_eq!(f.bullet_id, 42);
    assert_eq!(f.bullet_hit_pos, Vector3 { x: ONE, y: 2 * ONE, z: 3 * ONE });
}

#[test]
fn parse_empty_frame_stream_gives_one_default_frame() {
    let mut g = Replay::new();
    parse(&mut g, b"2/0/L/1/0.03333$").unwrap();
    assert_eq!(g.ghost_frames.len(), 1);
    let f = &g.ghost_frames[0];
    assert_eq!(f.index, 0);
    assert_eq!(f.frame_time, 0);
    assert_eq!(f.trigger_event, TriggerEvent::NoEvent);
}

#[test]
fn parse_unknown_label_rejected() {
    let mut g = Replay::new();
    assert_eq!(
        parse(&mut g, b"2/0/L/1/0.03333$a416z9"),
        Err(DecodeError::UnknownFieldLabel)
    );
    assert_eq!(g.ghost_frames.len(), 0);
}

#[test]
fn parse_bad_event_code_rejected() {
    let mut g = Replay::new();
    assert_eq!(
        parse(&mut g, b"2/0/L/1/0.03333$e999"),
        Err(DecodeError::UnknownTriggerEvent)
    );
}

#[test]
fn parse_error_leaves_aggregate_untouched() {
    let mut g = Replay::new();
    parse(&mut g, b"2/5/First/1/0.03333$a100").unwrap();
    let frames_before = g.ghost_frames.clone();
    assert_eq!(
        parse(&mut g, b"2/9/Second/1/0.03333$e999"),
        Err(DecodeError::UnknownTriggerEvent)
    );
    assert_eq!(g.forced_ghost_id, 5);
    assert_eq!(g.level_name, b"First".to_vec());
    assert_eq!(g.ghost_frames, frames_before);
}

#[test]
fn decode_twice_yields_identical_aggregates() {
    let input: &[u8] = b"2/7/TestLevel/12.5/0.03333$a416b1,2,3c-d0.25e1010g|a300b0.5,0,0hi|a300e3";
    let mut a = Replay::new();
    let mut b = Replay::new();
    parse(&mut a, input).unwrap();
    parse(&mut b, input).unwrap();
    assert_eq!(a.forced_ghost_id, b.forced_ghost_id);
    assert_eq!(a.level_name, b.level_name);
    assert_eq!(a.total_time, b.total_time);
    assert_eq!(a.ghost_frames, b.ghost_frames);
}

#[test]
fn angle_placeholder_and_negative_angles() {
    let mut g = Replay::new();
    parse(&mut g, b"2/0/L/1/0.03333$c-d-|c-0.5d0.25").unwrap();
    assert_eq!(g.ghost_frames[0].facing_angle_change, 0);
    assert_eq!(g.ghost_frames[0].camera_pitch_change, 0);
    assert_eq!(g.ghost_frames[1].facing_angle_change, -5000);
    assert_eq!(g.ghost_frames[1].camera_pitch_change, 2500);
    assert_eq!(g.ghost_frames[1].facing_angle, -5000);
    assert_eq!(g.ghost_frames[1].camera_pitch, 2500);
}

#[test]
fn bad_angle_text_rejected() {
    let mut g = Replay::new();
    assert_eq!(
        parse(&mut g, b"2/0/L/1/0.03333$c0.5.5"),
        Err(DecodeError::BadAngleNumber)
    );
}

#[test]
fn header_with_fewer_fields_rejected() {
    let mut g = Replay::new();
    assert_eq!(
        parse(&mut g, b"2/7$a100"),
        Err(DecodeError::BadHeaderFieldCount)
    );
    assert_eq!(g.ghost_frames.len(), 0);
    assert!(matches!(
        parse_header(b"2/7/TestLevel/12.5"),
        Err(DecodeError::BadHeaderFieldCount)
    ));
    assert!(matches!(parse_header(b"2"), Err(DecodeError::BadHeaderFieldCount)));
    assert!(matches!(parse_header(b""), Err(DecodeError::BadHeaderFieldCount)));
}

#[test]
fn duplicate_label_first_occurrence_wins() {
    let mut g = Replay::new();
    parse(&mut g, b"2/0/L/1/0.03333$a5a6").unwrap();
    assert_eq!(g.ghost_frames[0].frame_time, 5);
}

#[test]
fn leading_bytes_without_label_ignored() {
    let mut g = Replay::new();
    parse(&mut g, b"2/0/L/1/0.03333$5a3").unwrap();
    assert_eq!(g.ghost_frames[0].frame_time, 3);
}

#[test]
fn parse_frames_appends_from_clean_state() {
    let mut g = Replay::new();
    let tokens: Vec<Vec<u8>> = vec![b"a100".to_vec(), b"a200b1,0,0".to_vec()];
    parse_frames(&mut g, &tokens).unwrap();
    assert_eq!(g.ghost_frames.len(), 2);
    assert_eq!(g.ghost_frames[1].cumulative_time, 300);
    assert_eq!(g.ghost_frames[1].pos.x, 10000);
}

#[test]
fn discard_table_spot_checks() {
    assert_eq!(
        classify_event(1015),
        Ok(TriggerEvent::Discard(DiscardAbility::Flap))
    );
    assert_eq!(
        classify_event(1100),
        Ok(TriggerEvent::Discard(DiscardAbility::ShieldBash))
    );
    assert_eq!(classify_event(1025), Err(DecodeError::InvalidDiscardAbility));
    assert_eq!(classify_event(1000), Err(DecodeError::InvalidDiscardAbility));
}

#[test]
fn bad_frame_integer_rejected() {
    let mut g = Replay::new();
    assert_eq!(
        parse(&mut g, b"2/0/L/1/0.03333$a1.5"),
        Err(DecodeError::BadFrameInteger)
    );
    assert_eq!(
        parse(&mut g, b"2/0/L/1/0.03333$j--"),
        Err(DecodeError::BadFrameInteger)
    );
}

#[test]
fn header_with_three_fields_rejected() {
    let mut g = Replay::new();
    assert_eq!(
        parse(&mut g, b"2/7/NamedLevel$"),
        Err(DecodeError::BadHeaderFieldCount)
    );
    assert_eq!(g.ghost_frames.len(), 0);
}

#[test]
fn vector_add_is_componentwise() {
    let mut a = Vector3 { x: 1, y: 2, z: 3 };
    a.add(Vector3 { x: 10, y: -20, z: 30 });
    assert_eq!(a, Vector3 { x: 11, y: -18, z: 33 });
}

#[test]
fn fresh_frame_has_defaults() {
    let f = GhostFrame::new();
    assert_eq!(f.index, -1);
    assert_eq!(f.frame_time, 0);
    assert_eq!(f.trigger_event, TriggerEvent::NoEvent);
    assert!(!f.grounded && !f.stomping && !f.ziplining && !f.play_shot_animation);
    assert_eq!(f.bullet_id, 0);
}
