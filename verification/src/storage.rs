//! Where fetched pages go.
use vstd::prelude::*;

use crate::crawler::Page;
use crate::error::Result;

verus! {

/// A place that keeps fetched pages.
pub trait PageStore {
    fn save(&self, page: &Page) -> Result<()>;
}

/// A store that keeps nothing.
#[derive(Debug, Default)]
pub struct NoopStore;

impl PageStore for NoopStore {
    /// Keeps nothing, and always succeeds.
    fn save(&self, _page: &Page) -> (r: Result<()>)
        ensures
            r is Ok,
    {
        Ok(())
    }
}

} // verus!
