use vstd::prelude::*;

verus! {

/// What became of a ray that was sent into the scene.
#[derive(Clone, Copy, Debug, PartialEq, Eq, Structural)]
pub enum Bounce {
    /// The ray struck nothing.
    Missed,
    /// The ray struck a surface, which absorbed it.
    Absorbed,
    /// The ray struck a surface, which scattered it.
    Scattered,
}

/// What the evaluator of a path does next.
#[derive(Clone, Copy, Debug, PartialEq, Eq, Structural)]
pub enum Step {
    /// Send the ray into the scene; `depth` bounces are left, this one counted.
    Trace { depth: i32 },
    /// The path carries no light.
    Black,
    /// The path ends in the sky: it carries the background, attenuated by
    /// what the surfaces on its way took.
    Background,
}

/// How the scene answers the rays of one path: `answers(k)` is what becomes
/// of the ray after `k` scatterings.
pub type Answers = spec_fn(int) -> Bounce;

/// How a path ends that has `depth` bounces left after `done` scatterings:
/// black once the bounces are used up or a surface has absorbed the ray, in
/// the sky at the first miss.
pub open spec fn ending(depth: int, answers: Answers, done: int) -> Step
    decreases depth,
{
    if depth <= 0 {
        Step::Black
    } else {
        match answers(done) {
            Bounce::Missed => Step::Background,
            Bounce::Absorbed => Step::Black,
            Bounce::Scattered => ending(depth - 1, answers, done + 1),
        }
    }
}

/// The first step of a path with `depth` bounces.
pub open spec fn first_step(depth: int) -> Step {
    if depth <= 0 {
        Step::Black
    } else {
        Step::Trace { depth: depth as i32 }
    }
}

/// The step that follows when the ray traced with `depth` bounces left met `bounce`.
pub open spec fn next_step(depth: int, bounce: Bounce) -> Step {
    match bounce {
        Bounce::Missed => Step::Background,
        Bounce::Absorbed => Step::Black,
        Bounce::Scattered => first_step(depth - 1),
    }
}

/// The first step of a path that may bounce `depth` times: with no bounce
/// left it is black without a look at the scene.
pub fn begin(depth: i32) -> (step: Step)
    ensures
        step == first_step(depth as int),
{
    if depth <= 0 {
        Step::Black
    } else {
        Step::Trace { depth }
    }
}

/// The step after the ray that was traced with `depth` bounces left has met `bounce`.
pub fn advance(depth: i32, bounce: Bounce) -> (step: Step)
    requires
        depth > 0,
    ensures
        step == next_step(depth as int, bounce),
{
    match bounce {
        Bounce::Missed => Step::Background,
        Bounce::Absorbed => Step::Black,
        Bounce::Scattered => begin(depth - 1),
    }
}

/// Where the steps lead: the step reached after `done` scatterings, followed
/// to the end of the path.
pub open spec fn followed(step: Step, answers: Answers, done: int) -> Step {
    match step {
        Step::Trace { depth } => ending(depth as int, answers, done),
        _ => step,
    }
}

/// Taking the steps one by one ends the path as [`ending`] says, and a path of
/// `depth` bounces has ended after `depth` rays at the latest.
pub proof fn lemma_steps_reach_ending(depth: i32, answers: Answers, done: int)
    requires
        depth > 0,
    ensures
        followed(next_step(depth as int, answers(done)), answers, done + 1) == ending(
            depth as int,
            answers,
            done,
        ),
        followed(first_step(depth as int), answers, done) == ending(depth as int, answers, done),
        ending(depth as int, answers, done) != (Step::Trace { depth }),
{
    lemma_ending_is_final(depth as int, answers, done);
    if depth == 1 {
        assert(ending(0, answers, done + 1) == Step::Black);
    }
}

/// A path ends black or in the sky.
pub proof fn lemma_ending_is_final(depth: int, answers: Answers, done: int)
    ensures
        ending(depth, answers, done) == Step::Black || ending(depth, answers, done)
            == Step::Background,
    decreases depth,
{
    if depth > 0 && answers(done) == Bounce::Scattered {
        lemma_ending_is_final(depth - 1, answers, done + 1);
    }
}

/// A path whose every ray is scattered is black: the bounces run out.
pub proof fn lemma_exhausted_is_black(depth: int, answers: Answers, done: int)
    requires
        forall|k: int| done <= k < done + depth ==> #[trigger] answers(k) == Bounce::Scattered,
    ensures
        ending(depth, answers, done) == Step::Black,
    decreases depth,
{
    if depth > 0 {
        lemma_exhausted_is_black(depth - 1, answers, done + 1);
    }
}

} // verus!
