//! Running a schedule of tasks: which schedules are accepted, and what
//! follows each generation of a task.

use vstd::prelude::*;

verus! {

/// The most often that a schedule may repeat its tasks.
pub const MAX_REPEAT_COUNT: u64 = 100;

/// The fewest generations between two reports.
pub const MIN_UPDATE_RATE: u64 = 1000;

/// The most generations between two reports.
pub const MAX_UPDATE_RATE: u64 = 100000;

/// A schedule is accepted where it repeats its tasks between once and
/// `MAX_REPEAT_COUNT` times, reports every `MIN_UPDATE_RATE` to
/// `MAX_UPDATE_RATE` generations, and holds a task.
pub open spec fn acceptable(repeat_count: u64, update_rate: u64, tasks: nat) -> bool {
    &&& 1 <= repeat_count <= MAX_REPEAT_COUNT
    &&& MIN_UPDATE_RATE <= update_rate <= MAX_UPDATE_RATE
    &&& tasks > 0
}

/// Whether a schedule is accepted.
pub fn is_acceptable(repeat_count: u64, update_rate: u64, tasks: usize) -> (ok: bool)
    ensures
        ok == acceptable(repeat_count, update_rate, tasks as nat),
{
    if repeat_count == 0 || repeat_count > MAX_REPEAT_COUNT {
        return false;
    }
    if update_rate < MIN_UPDATE_RATE || update_rate > MAX_UPDATE_RATE {
        return false;
    }
    tasks > 0
}

/// What follows a generation of a task.
#[derive(Debug, Clone, Copy, PartialEq, Eq, Structural)]
pub enum Progress {
    /// The task ends.
    Finished,
    /// The task goes on, and its state is reported first.
    Report,
    /// The task goes on.
    Continue,
}

/// What follows after `iterations` generations: the task ends where that
/// is the most it may run or its fitness is the one asked for; else its
/// state is reported every `update_rate` generations.
pub open spec fn progress(
    iterations: u64,
    max_iterations: u64,
    current_fitness: u64,
    optimal_fitness: Option<u64>,
    update_rate: u64,
) -> Progress {
    if iterations >= max_iterations {
        Progress::Finished
    } else if optimal_fitness == Some(current_fitness) {
        Progress::Finished
    } else if iterations % update_rate == 0 {
        Progress::Report
    } else {
        Progress::Continue
    }
}

/// What follows a generation of a task.
pub fn after_iteration(
    iterations: u64,
    max_iterations: u64,
    current_fitness: u64,
    optimal_fitness: Option<u64>,
    update_rate: u64,
) -> (next: Progress)
    requires
        update_rate > 0,
    ensures
        next == progress(iterations, max_iterations, current_fitness, optimal_fitness, update_rate),
{
    if iterations >= max_iterations {
        return Progress::Finished;
    }
    match optimal_fitness {
        Some(optimal) => {
            if optimal == current_fitness {
                return Progress::Finished;
            }
        },
        None => {},
    }
    if iterations % update_rate == 0 {
        Progress::Report
    } else {
        Progress::Continue
    }
}

} // verus!
