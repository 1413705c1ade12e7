use skeletal_animation::animation::animator::{is_time_axis, Animator};
use skeletal_animation::math::time_loop;

// Times are in ticks of a thousandth of a time unit.
fn four_frames() -> Vec<i64> {
    vec![0, 1000, 2000, 3000]
}

fn cursor_at(time: i64, loop_time: Option<i64>, forward: bool) -> Animator {
    let mut animator = Animator::new();
    if let Some(gap) = loop_time {
        animator.set_loop_time(gap);
    }
    animator.time = time;
    animator.set_time_direction(forward);
    animator
}

#[test]
fn animator_loop_test() {
    let sample_times = four_frames();
    let mut animator = Animator::new();
    animator.set_loop_time(1000);
    animator.time = 3500;

    animator.update_frames(sample_times.as_slice());

    println!("{:?}", animator);

    assert!(animator.current_frame() == (3, 3000));
    assert!(animator.next_frame() == (0, 0));
}

#[test]
fn animator_forward_test() {
    let sample_times = four_frames();
    let mut animator = Animator::new();
    animator.set_loop_time(1000);
    animator.time = 1500;

    animator.update_frames(sample_times.as_slice());

    println!("{:?}", animator);

    assert!(animator.current_frame() == (1, 1000));
    assert!(animator.next_frame() == (2, 2000));
}

#[test]
fn animator_outside_test() {
    let sample_times = four_frames();
    let mut animator = Animator::new();
    animator.set_loop_time(5000);
    animator.time = 1500;
    animator.set_time_direction(true);

    animator.update_frames(sample_times.as_slice());

    println!("{:?}", animator);

    assert!(animator.current_frame() == (1, 1000));
    assert!(animator.next_frame() == (2, 2000));
}

#[test]
fn range_loop() {
    let time = 5000;
    let time = time_loop(time, 0, 1000);

    let time2 = -5500;
    let time2 = time_loop(time2, 0, 1000);

    assert!(time == 0);
    assert!(time2 == 500);
}

#[test]
fn time_loop_keeps_times_inside_and_at_the_ends() {
    assert_eq!(time_loop(0, 0, 1000), 0);
    assert_eq!(time_loop(999, 0, 1000), 999);
    assert_eq!(time_loop(1000, 0, 1000), 1000);
    assert_eq!(time_loop(1001, 0, 1000), 1);
    assert_eq!(time_loop(-1, 0, 1000), 999);
    assert_eq!(time_loop(-1000, 0, 1000), 1000);
    assert_eq!(time_loop(2000, 0, 1000), 0);
    assert_eq!(time_loop(7, 5, 9), 7);
    assert_eq!(time_loop(12, 5, 9), 8);
    assert_eq!(time_loop(2, 5, 9), 6);
    assert_eq!(time_loop(i64::MIN, -1, i64::MAX), 0);
    assert_eq!(time_loop(i64::MAX, i64::MIN, 0), -1);
}

#[test]
fn backward_play_brackets_the_clock_from_below() {
    let sample_times = four_frames();
    let mut animator = cursor_at(1500, Some(1000), false);
    animator.update_frames(sample_times.as_slice());
    assert_eq!(animator.current_frame(), (1, 1000));
    assert_eq!(animator.next_frame(), (2, 2000));
}

#[test]
fn bracket_holds_the_clock_when_playing_once() {
    let sample_times = vec![0, 400, 1000, 1700, 3000];
    for forward in [true, false] {
        for time in 0..=3000 {
            let mut animator = cursor_at(time, None, forward);
            animator.update_frames(sample_times.as_slice());
            let (current, next) = (animator.current_frame(), animator.next_frame());
            assert_eq!(animator.time, time);
            if current == next {
                assert!(time == 0 || time == 3000, "boundary state at {}", time);
            } else {
                assert!(current.1 <= time && time < next.1);
                assert_eq!(next.0, current.0 + 1);
                assert_eq!(current.1, sample_times[current.0]);
                assert_eq!(next.1, sample_times[next.0]);
            }
        }
    }
}

#[test]
fn playing_once_holds_the_ends() {
    let sample_times = four_frames();
    for forward in [true, false] {
        let mut early = cursor_at(-250, None, forward);
        early.update_frames(sample_times.as_slice());
        assert_eq!((early.current_frame(), early.next_frame()), ((0, 0), (0, 0)));
        assert_eq!(early.time, -250);

        let mut late = cursor_at(3000, None, forward);
        late.update_frames(sample_times.as_slice());
        assert_eq!((late.current_frame(), late.next_frame()), ((3, 3000), (3, 3000)));

        let mut later = cursor_at(9999, None, forward);
        later.update_frames(sample_times.as_slice());
        assert_eq!((later.current_frame(), later.next_frame()), ((3, 3000), (3, 3000)));
        assert_eq!(later.time, 9999);
    }
}

#[test]
fn single_sample_clip_holds_its_frame() {
    let sample_times = vec![0];
    let mut once = cursor_at(500, None, true);
    once.update_frames(sample_times.as_slice());
    assert_eq!((once.current_frame(), once.next_frame()), ((0, 0), (0, 0)));

    let mut looping = cursor_at(1250, Some(1000), true);
    looping.update_frames(sample_times.as_slice());
    assert_eq!((looping.current_frame(), looping.next_frame()), ((0, 0), (0, 0)));
    assert_eq!(looping.time, 250);
}

#[test]
fn looping_is_periodic() {
    let sample_times = four_frames();
    let period = 3000 + 1000;
    for forward in [true, false] {
        for time in 0..period {
            let mut early = cursor_at(time, Some(1000), forward);
            early.update_frames(sample_times.as_slice());
            let mut late = cursor_at(time + period, Some(1000), forward);
            late.update_frames(sample_times.as_slice());
            assert_eq!(early.time, late.time);
            assert_eq!(early.current_frame(), late.current_frame());
            assert_eq!(early.next_frame(), late.next_frame());
            let mut before = cursor_at(time - 3 * period, Some(1000), forward);
            before.update_frames(sample_times.as_slice());
            if time > 0 {
                assert_eq!(before.time, time);
                assert_eq!(before.current_frame(), early.current_frame());
                assert_eq!(before.next_frame(), early.next_frame());
            }
        }
    }
}

#[test]
fn looping_wraps_the_clock_into_one_period() {
    let sample_times = four_frames();
    let mut animator = cursor_at(4000, Some(1000), true);
    animator.update_frames(sample_times.as_slice());
    assert_eq!(animator.time, 0);
    assert_eq!((animator.current_frame(), animator.next_frame()), ((0, 0), (1, 1000)));

    let mut back = cursor_at(-500, Some(1000), false);
    back.update_frames(sample_times.as_slice());
    assert_eq!(back.time, 3500);
    assert_eq!((back.current_frame(), back.next_frame()), ((3, 3000), (0, 0)));
}

#[test]
fn there_and_back_restores_the_bracket() {
    let sample_times = four_frames();
    for (loop_time, played) in [(None, 1500), (None, 2999), (Some(1000), 500), (Some(0), 2500)] {
        let mut animator = Animator::new();
        if let Some(gap) = loop_time {
            animator.set_loop_time(gap);
        }
        animator.update_frames(sample_times.as_slice());
        let start = (animator.time, animator.current_frame(), animator.next_frame());

        animator.add_time(played);
        animator.update_frames(sample_times.as_slice());
        let segment = (played / 1000) as usize;
        assert_eq!(animator.current_frame(), (segment, sample_times[segment]));
        assert_eq!(animator.next_frame(), (segment + 1, sample_times[segment + 1]));

        animator.reverse();
        animator.add_time(played);
        animator.update_frames(sample_times.as_slice());
        assert_eq!((animator.time, animator.current_frame(), animator.next_frame()), start);
    }
}

#[test]
fn first_segment_is_kept_on_the_way_back_when_playing_once() {
    let sample_times = four_frames();
    let mut animator = Animator::new();
    animator.update_frames(sample_times.as_slice());
    assert_eq!((animator.current_frame(), animator.next_frame()), ((0, 0), (0, 0)));
    animator.add_time(500);
    animator.update_frames(sample_times.as_slice());
    animator.reverse();
    animator.add_time(500);
    animator.update_frames(sample_times.as_slice());
    assert_eq!(animator.time, 0);
    assert_eq!((animator.current_frame(), animator.next_frame()), ((0, 0), (1, 1000)));
}

#[test]
fn small_steps_and_large_jumps_agree() {
    let sample_times: Vec<i64> = (0..200).map(|i| i * 10).collect();
    let mut walking = Animator::new();
    let mut forward_times = vec![];
    for _ in 0..1990 {
        walking.add_time(1);
        walking.update_frames(sample_times.as_slice());
        forward_times.push((walking.time, walking.current_frame(), walking.next_frame()));
    }
    for (time, current, next) in forward_times.iter().rev().step_by(37) {
        // A cursor left far ahead of the time asked for has to search.
        let mut jumping = cursor_at(1985, None, true);
        jumping.update_frames(sample_times.as_slice());
        jumping.time = *time;
        jumping.update_frames(sample_times.as_slice());
        assert_eq!((jumping.current_frame(), jumping.next_frame()), (*current, *next));
        // And so has one left far behind it while playing backward.
        let mut behind = cursor_at(5, None, false);
        behind.update_frames(sample_times.as_slice());
        behind.time = *time;
        behind.update_frames(sample_times.as_slice());
        assert_eq!((behind.current_frame(), behind.next_frame()), (*current, *next));
    }
    walking.reverse();
    for _ in 0..1980 {
        walking.add_time(1);
        walking.update_frames(sample_times.as_slice());
        let index = (walking.time / 10) as usize;
        assert_eq!(walking.current_frame(), (index, sample_times[index]));
        assert_eq!(walking.next_frame(), (index + 1, sample_times[index + 1]));
    }
}

#[test]
fn a_bracket_that_holds_the_clock_is_kept() {
    let sample_times = four_frames();
    let mut animator = cursor_at(1500, Some(1000), true);
    animator.update_frames(sample_times.as_slice());
    animator.add_time(300);
    animator.update_frames(sample_times.as_slice());
    assert_eq!(animator.time, 1800);
    assert_eq!((animator.current_frame(), animator.next_frame()), ((1, 1000), (2, 2000)));
    // The bracket is kept even over another clip, as long as it holds the clock.
    let other = vec![0, 100];
    animator.update_frames(other.as_slice());
    assert_eq!((animator.current_frame(), animator.next_frame()), ((1, 1000), (2, 2000)));
    animator.add_time(500);
    animator.update_frames(other.as_slice());
    assert_eq!(animator.time, 100);
    assert_eq!((animator.current_frame(), animator.next_frame()), ((1, 100), (0, 0)));
}

#[test]
fn a_time_axis_begins_at_zero_and_rises() {
    assert!(is_time_axis(&[0]));
    assert!(is_time_axis(&[0, 1, 5, 6]));
    assert!(!is_time_axis(&[]));
    assert!(!is_time_axis(&[1, 2]));
    assert!(!is_time_axis(&[0, 2, 2]));
    assert!(!is_time_axis(&[0, 3, 2, 4]));
    assert!(!is_time_axis(&[0, -1]));
}

#[test]
fn add_time_follows_the_direction() {
    let mut animator = Animator::new();
    animator.add_time(250);
    assert_eq!(animator.time, 250);
    animator.reverse();
    animator.add_time(1000);
    assert_eq!(animator.time, -750);
    animator.set_time_direction(true);
    animator.add_time(-250);
    assert_eq!(animator.time, -1000);
    animator.remove_loop();
    assert_eq!((animator.current_frame(), animator.next_frame()), ((0, 0), (0, 0)));
}
