//! Reads one relation of the operator page by page, over and over.
use vstd::prelude::*;

verus! {

/// The cursor that asks for the first page.
pub const FIRST_PAGE: i64 = -1;

/// The continuation token that says that no page follows.
pub const NO_MORE_PAGES: i64 = 0;

/// How many ids one page holds at most.
pub const PAGE_SIZE: i32 = 5000;

/// One page of ids and the token that continues after it.
pub struct IdPage {
    pub ids: Vec<u64>,
    pub next_cursor: i64,
}

/// Walks one relation. The cursor lives in memory only: after a restart the walk
/// begins again at the first page, which is harmless because seeing an id again only
/// refreshes it.
pub struct UserIdSynchronizer {
    /// Whether the followers are walked, or else the friends.
    pub follower: bool,
    /// Where the next page is asked for.
    pub cursor: i64,
}

/// The cursor after a page that continues at `next_cursor`: a finished pass starts the
/// next one at the first page.
pub open spec fn cursor_after(next_cursor: i64) -> i64 {
    if next_cursor == NO_MORE_PAGES {
        FIRST_PAGE
    } else {
        next_cursor
    }
}

impl UserIdSynchronizer {
    /// A walk that starts at the first page.
    pub fn new(follower: bool) -> (syncer: Self)
        ensures
            syncer.follower == follower,
            syncer.cursor == FIRST_PAGE,
    {
        UserIdSynchronizer { follower, cursor: FIRST_PAGE }
    }

    /// The end of a round in which the page at `self.cursor` was asked for. `stored`
    /// is the token that continues after the page, if the page came and its ids were
    /// stored, and the cursor moves on to it. `None` says that the call or the store
    /// failed: the cursor stays, so that the next round asks for the same page again.
    pub fn run(&mut self, stored: Option<i64>)
        ensures
            final(self).follower == old(self).follower,
            final(self).cursor == match stored {
                Some(next_cursor) => cursor_after(next_cursor),
                None => old(self).cursor,
            },
    {
        match stored {
            Some(next_cursor) => {
                self.cursor = if next_cursor == 0 {
                    -1
                } else {
                    next_cursor
                };
            },
            None => {},
        }
    }
}

} // verus!
