//! Routing on the store's classification of an incoming commit.
use vstd::prelude::*;

verus! {

/// The classification flags that the store reports for an incoming commit
/// against the current HEAD. An unborn HEAD is reported together with
/// `fast_forward`.
#[derive(Clone, Copy, Debug, PartialEq, Eq, Structural)]
pub struct MergeAnalysis {
    pub unborn: bool,
    pub up_to_date: bool,
    pub fast_forward: bool,
    pub normal: bool,
}

/// The executor that a merge attempt is handed to.
#[derive(Clone, Copy, Debug, PartialEq, Eq, Structural)]
pub enum Route {
    FastForward,
    ThreeWay,
    NothingToDo,
}

/// A fast-forward is taken whenever it is possible; a three-way merge only
/// when the history diverged; anything else needs no work.
pub open spec fn route_spec(a: MergeAnalysis) -> Route {
    if a.fast_forward {
        Route::FastForward
    } else if a.normal {
        Route::ThreeWay
    } else {
        Route::NothingToDo
    }
}

/// Chooses the executor for a merge attempt.
pub fn route(a: MergeAnalysis) -> (r: Route)
    ensures
        r == route_spec(a),
        a.fast_forward <==> r == Route::FastForward,
        !a.fast_forward && a.normal <==> r == Route::ThreeWay,
        !a.fast_forward && !a.normal <==> r == Route::NothingToDo,
{
    if a.fast_forward {
        Route::FastForward
    } else if a.normal {
        Route::ThreeWay
    } else {
        Route::NothingToDo
    }
}

} // verus!
