//! The first half of what follows the repository's listing, kept abstract
//! where the whole is put together.
use vstd::prelude::*;
use crate::state::{selection_changed, start_preloading, then, AppView, Step};

verus! {

/// Preloading started, then the selection followed.
pub closed spec fn preload_then_select(s: AppView) -> Step {
    then(start_preloading(s), |x: AppView| selection_changed(x))
}

/// What `preload_then_select` is.
pub proof fn lemma_preload_then_select(s: AppView)
    ensures
        preload_then_select(s) == then(start_preloading(s), |x: AppView| selection_changed(x)),
{
}

} // verus!
