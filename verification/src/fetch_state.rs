//! What a window showing the menu knows about its fetch while a worker
//! loads the menu in the background, and how each look at the worker
//! changes that.

use vstd::prelude::*;
use crate::meal::Meal;

verus! {

/// The menu as a window shows it.
#[derive(Debug)]
pub enum FetchState {
    /// The worker is still fetching.
    Loading,
    /// The menu's meals.
    Ready(Vec<Meal>),
    /// The menu holds no meal.
    Empty,
    /// The fetch failed; the text says why.
    Failed(String),
}

/// What a look at the worker found.
#[derive(Debug)]
pub enum WorkerPoll {
    /// The worker sent its result: the meals, or the error's text.
    Finished(Result<Vec<Meal>, String>),
    /// The worker has not sent anything yet.
    Pending,
    /// The worker is gone without sending anything.
    Disconnected,
}

/// The state after a look at the worker, and whether to keep waiting for
/// it (and draw again): a result ends the wait with the meals, `Empty`
/// when there are none, or the error; while the worker works, nothing
/// changes; a worker that is gone leaves the fetch failed.
pub fn after_poll(state: FetchState, poll: WorkerPoll) -> (r: (FetchState, bool))
    ensures
        poll matches WorkerPoll::Finished(Ok(meals)) ==> !r.1 && (if meals@.len() == 0 {
            r.0 is Empty
        } else {
            r.0 == FetchState::Ready(meals)
        }),
        poll matches WorkerPoll::Finished(Err(e)) ==> !r.1 && r.0 == FetchState::Failed(e),
        poll is Pending ==> r.1 && r.0 == state,
        poll is Disconnected ==> !r.1 && (r.0 matches FetchState::Failed(m) && m@
            == "Worker thread disconnected"@),
{
    match poll {
        WorkerPoll::Finished(Ok(meals)) => {
            if meals.len() == 0 {
                (FetchState::Empty, false)
            } else {
                (FetchState::Ready(meals), false)
            }
        },
        WorkerPoll::Finished(Err(e)) => (FetchState::Failed(e), false),
        WorkerPoll::Pending => (state, true),
        WorkerPoll::Disconnected => (FetchState::Failed("Worker thread disconnected".to_owned()), false),
    }
}

} // verus!
