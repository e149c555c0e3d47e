use ghost_replay::frame::GhostFrame;
use ghost_replay::geom::Vector3;
use ghost_replay::replay::{parse, Replay};
use ghost_replay::stats::{collect_stats, FrameTimeStats, VelocityStats};

// One whole-number unit of a fixed-point quantity (scale 10^4).
const ONE: i64 = 10000;

fn frame_with_time(index: i64, frame_time: i64) -> GhostFrame {
    let mut f = GhostFrame::new();
    f.index = index;
    f.frame_time = frame_time;
    f
}

fn frame_with_motion(index: i64, frame_time: i64, y: i64) -> GhostFrame {
    let mut f = GhostFrame::new();
    f.index = index;
    f.frame_time = frame_time;
    f.pos = Vector3 { x: 0, y, z: 0 };
    f
}

#[test]
fn frame_time_collector_scenario() {
    // Time deltas 0.0, 0.05, 0.03, 0.05 s, in ticks of 1/10000 s.
    let ticks = [0i64, 500, 300, 500];
    let mut st = FrameTimeStats::new();
    for (i, t) in ticks.iter().enumerate() {
        st.collect(&frame_with_time(i as i64, *t));
    }
    assert_eq!(st.num_frames, 3);
    assert_eq!(st.frame_time_sum, 1300);
    assert_eq!(st.min_frame_time, 300);
    assert_eq!(st.max_frame_time, 500);
}

#[test]
fn frame_time_collector_skips_zero_deltas() {
    let mut st = FrameTimeStats::new();
    st.collect(&frame_with_time(0, 700));
    st.collect(&frame_with_time(1, 500));
    st.collect(&frame_with_time(2, 0));
    st.collect(&frame_with_time(3, 200));
    assert_eq!(st.num_frames, 2);
    assert_eq!(st.frame_time_sum, 700);
    assert_eq!(st.min_frame_time, 200);
    assert_eq!(st.max_frame_time, 500);
}

#[test]
fn jump_detection_scenario() {
    // Vertical velocities 0, 0, 2, 2, 0, 1 at indices 0..=5: with a time
    // delta of one tick per record, the y positions accumulate the
    // velocities.  Exactly the 0->2 and 0->1 transitions count.
    let ys = [0i64, 0, 2, 4, 4, 5];
    let mut st = VelocityStats::new();
    for (i, y) in ys.iter().enumerate() {
        let dt = if i == 0 { 0 } else { 1 };
        st.collect(&frame_with_motion(i as i64, dt, *y));
    }
    assert_eq!(st.num_jumps, 2);
}

#[test]
fn jump_detection_ignores_plateau_and_descent() {
    // Rise, plateau, descent, rise from negative: only the first rise from
    // zero counts; the later rise starts from a negative velocity.
    let ys = [0i64, 3, 3, 1, 2];
    let mut st = VelocityStats::new();
    for (i, y) in ys.iter().enumerate() {
        let dt = if i == 0 { 0 } else { 1 };
        st.collect(&frame_with_motion(i as i64, dt, *y));
    }
    assert_eq!(st.num_jumps, 1);
}

#[test]
fn velocity_collector_tracks_last_position_always() {
    let mut st = VelocityStats::new();
    st.collect(&frame_with_motion(0, 0, 7));
    assert_eq!(st.last_pos, Vector3 { x: 0, y: 7, z: 0 });
    assert_eq!(st.num_jumps, 0);
    st.collect(&frame_with_motion(1, 0, 9));
    assert_eq!(st.last_pos, Vector3 { x: 0, y: 9, z: 0 });
    assert_eq!(st.num_jumps, 0);
}

#[test]
fn collect_stats_drives_both_collectors() {
    let mut g = Replay::new();
    parse(&mut g, b"2/0/L/1/0.03333$|a500b0,1,0|a300b0,1,0|a500b0,0,0").unwrap();
    let (ft, vel) = collect_stats(&g).unwrap();
    assert_eq!(ft.num_frames, 3);
    assert_eq!(ft.frame_time_sum, 1300);
    assert_eq!(ft.min_frame_time, 300);
    assert_eq!(ft.max_frame_time, 500);
    // One rise from rest; the following records never return the vertical
    // velocity to zero and then positive again.
    assert_eq!(vel.num_jumps, 1);
    assert_eq!(vel.last_pos, Vector3 { x: 0, y: 2 * ONE, z: 0 });
}

#[test]
fn collect_stats_on_empty_replay() {
    let g = Replay::new();
    let (ft, vel) = collect_stats(&g).unwrap();
    assert_eq!(ft.num_frames, 0);
    assert_eq!(ft.frame_time_sum, 0);
    assert_eq!(vel.num_jumps, 0);
}

#[test]
fn velocity_extremes_exact_rationals() {
    // Rises 3 units in 2 ticks, falls 5 units in 3 ticks: the extremes are
    // exactly 3/2 and -5/3 (in fixed-point units per tick).
    let mut st = VelocityStats::new();
    st.collect(&frame_with_motion(0, 0, 0));
    st.collect(&frame_with_motion(1, 2, 3));
    st.collect(&frame_with_motion(2, 3, -2));
    assert_eq!(st.max_upwards_y_vel_num, 3);
    assert_eq!(st.max_upwards_y_vel_den, 2);
    assert_eq!(st.max_downward_y_vel_num, -5);
    assert_eq!(st.max_downward_y_vel_den, 3);
}

#[test]
fn velocity_downward_not_checked_when_up_updates() {
    // A record that sets a new upward extreme never touches the downward
    // extreme, even though its velocity is above the downward extreme too.
    let mut st = VelocityStats::new();
    st.collect(&frame_with_motion(0, 0, 0));
    st.collect(&frame_with_motion(1, 1, 4));
    assert_eq!(st.max_upwards_y_vel_num, 4);
    assert_eq!(st.max_upwards_y_vel_den, 1);
    assert_eq!(st.max_downward_y_vel_num, 0);
    assert_eq!(st.max_downward_y_vel_den, 1);
}

#[test]
fn velocity_negative_time_delta_normalizes_sign() {
    // A negative time delta flips the quotient's sign: falling 2 units over
    // -1 tick is a positive velocity of 2.
    let mut st = VelocityStats::new();
    st.collect(&frame_with_motion(0, 0, 0));
    st.collect(&frame_with_motion(1, -1, -2));
    assert_eq!(st.max_upwards_y_vel_num, 2);
    assert_eq!(st.max_upwards_y_vel_den, 1);
    assert_eq!(st.num_jumps, 1);
}

#[test]
fn frame_time_minimum_seeds_from_first_contributing_record() {
    // Record one contributes nothing, so the seed waits for the first
    // record that does: the minimum is 300, not a false 0.
    let ticks = [0i64, 0, 300, 500];
    let mut st = FrameTimeStats::new();
    for (i, t) in ticks.iter().enumerate() {
        st.collect(&frame_with_time(i as i64, *t));
    }
    assert_eq!(st.num_frames, 2);
    assert_eq!(st.min_frame_time, 300);
    assert_eq!(st.max_frame_time, 500);
}
