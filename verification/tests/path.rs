use raytracer::path::{advance, begin, Bounce, Step};

/// Follows a path to its end, the scene answering with `answers` in turn;
/// gives the end and the number of rays that were traced.
fn walk(depth: i32, answers: &[Bounce]) -> (Step, usize) {
    let mut traced = 0;
    let mut step = begin(depth);
    while let Step::Trace { depth } = step {
        step = advance(depth, answers[traced]);
        traced += 1;
    }
    (step, traced)
}

#[test]
fn no_bounce_left_is_black() {
    assert_eq!(begin(0), Step::Black);
    assert_eq!(begin(-5), Step::Black);
}

#[test]
fn a_path_begins_with_a_ray() {
    assert_eq!(begin(50), Step::Trace { depth: 50 });
}

#[test]
fn a_miss_ends_in_the_background() {
    assert_eq!(advance(1, Bounce::Missed), Step::Background);
    assert_eq!(advance(50, Bounce::Missed), Step::Background);
}

#[test]
fn an_absorbed_ray_is_black() {
    assert_eq!(advance(50, Bounce::Absorbed), Step::Black);
}

#[test]
fn a_scattered_ray_uses_up_a_bounce() {
    assert_eq!(advance(50, Bounce::Scattered), Step::Trace { depth: 49 });
    assert_eq!(advance(2, Bounce::Scattered), Step::Trace { depth: 1 });
}

#[test]
fn the_last_bounce_scattered_is_black() {
    assert_eq!(advance(1, Bounce::Scattered), Step::Black);
}

#[test]
fn a_path_of_depth_one_that_misses_is_the_background() {
    assert_eq!(walk(1, &[Bounce::Missed]), (Step::Background, 1));
}

#[test]
fn a_path_traces_no_more_rays_than_its_depth() {
    let answers = [Bounce::Scattered; 60];
    assert_eq!(walk(50, &answers), (Step::Black, 50));
    assert_eq!(walk(3, &answers), (Step::Black, 3));
}

#[test]
fn a_path_ends_at_the_first_miss() {
    let answers = [Bounce::Scattered, Bounce::Scattered, Bounce::Missed, Bounce::Absorbed];
    assert_eq!(walk(50, &answers), (Step::Background, 3));
    assert_eq!(walk(2, &answers), (Step::Black, 2));
}

#[test]
fn a_path_ends_where_it_is_absorbed() {
    let answers = [Bounce::Scattered, Bounce::Absorbed, Bounce::Missed];
    assert_eq!(walk(50, &answers), (Step::Black, 2));
}
