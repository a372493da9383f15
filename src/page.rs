//! Following continuation cursors across the pages of a listing.
use vstd::prelude::*;

verus! {

/// Where a paged listing stands: the next page to fetch, from a cursor or
/// from the start, or the end.
#[derive(Debug, PartialEq)]
pub enum PageState<C> {
    Next(Option<C>),
    End,
}

impl<C> PageState<C> {
    /// A listing starts with a fetch from the beginning.
    pub fn start() -> (r: PageState<C>)
        ensures
            r == PageState::<C>::Next(None),
    {
        PageState::Next(None)
    }

    /// After a page whose continuation cursor is `last`: fetch again from
    /// that cursor, or stop where the page had none or an empty one.
    /// `last_is_empty` says whether the cursor is empty.
    pub fn after_page(last: Option<C>, last_is_empty: bool) -> (r: PageState<C>)
        ensures
            match last {
                Some(c) => if last_is_empty {
                    r == PageState::<C>::End
                } else {
                    r == PageState::Next(Some(c))
                },
                None => r == PageState::<C>::End,
            },
    {
        match last {
            Some(c) => if last_is_empty {
                PageState::End
            } else {
                PageState::Next(Some(c))
            },
            None => PageState::End,
        }
    }
}

} // verus!
