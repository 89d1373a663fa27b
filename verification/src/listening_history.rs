//! Account watch history, distinct from the back-navigation stack.
use vstd::prelude::*;
use crate::discovery::{next_request_id, same_opt_str};
use crate::effect::ApiRequest;
use crate::model::{clone_opt_str, opt_str, Track};

verus! {

/// One page of the watch history.
#[derive(Debug, PartialEq)]
pub struct HistoryPage {
    pub tracks: Vec<Track>,
    pub continuation: Option<String>,
}

/// The watch history shown, and the request in flight for it.
#[derive(Debug)]
pub struct ListeningHistory {
    pub tracks: Vec<Track>,
    pub continuation: Option<String>,
    pub loading: bool,
    pub loaded: bool,
    pub error: Option<String>,
    pub request_id: u64,
    pub appending: bool,
}

impl Default for ListeningHistory {
    fn default() -> (r: Self)
        ensures
            r.tracks@.len() == 0,
            r.continuation is None,
            !r.loading,
            !r.loaded,
            r.error is None,
            r.request_id == 0,
            !r.appending,
    {
        ListeningHistory {
            tracks: Vec::new(),
            continuation: None,
            loading: false,
            loaded: false,
            error: None,
            request_id: 0,
            appending: false,
        }
    }
}

/// `h1` and `r` are what asking `h0` for its first page (or with
/// `more`, the next) gives: nothing while a request runs or when no
/// further page exists; otherwise a fresh request.
pub open spec fn history_requested(h0: ListeningHistory, more: bool, h1: ListeningHistory, r: Option<ApiRequest>) -> bool {
    if h0.loading || (more && h0.continuation is None) {
        &&& r is None
        &&& h1 == h0
    } else {
        &&& h1.loading
        &&& h1.error is None
        &&& h1.appending == more
        &&& h1.request_id == next_request_id(h0.request_id)
        &&& h1.tracks == h0.tracks
        &&& h1.continuation == h0.continuation
        &&& h1.loaded == h0.loaded
        &&& r matches Some(ApiRequest::FetchHistory { request_id, continuation })
            && request_id == h1.request_id && opt_str(continuation) == if more {
            opt_str(h0.continuation)
        } else {
            None
        }
    }
}

/// `h1` is `h0` after the page result `result` for `request_id`: only
/// the result of the request in flight counts; a success sets or
/// extends the list, a failure keeps it with the error.
pub open spec fn history_applied(h0: ListeningHistory, request_id: u64, result: Result<HistoryPage, String>, h1: ListeningHistory) -> bool {
    &&& (request_id != h0.request_id || !h0.loading) ==> h1 == h0
    &&& (request_id == h0.request_id && h0.loading) ==> {
        &&& !h1.loading
        &&& h1.request_id == h0.request_id
        &&& h1.appending == h0.appending
        &&& match result {
            Ok(page) => {
                &&& h1.loaded
                &&& h1.error == h0.error
                &&& h1.tracks@ == if h0.appending {
                    h0.tracks@ + page.tracks@
                } else {
                    page.tracks@
                }
                &&& h1.continuation == if h0.appending && page.continuation
                    is Some && opt_str(page.continuation) == opt_str(h0.continuation) {
                    None
                } else {
                    page.continuation
                }
            },
            Err(e) => {
                &&& h1.error == Some(e)
                &&& h1.tracks == h0.tracks
                &&& h1.continuation == h0.continuation
                &&& h1.loaded == h0.loaded
            },
        }
    }
}

impl ListeningHistory {
    /// Asks for the first page, or with `more` the page after the last
    /// one. Nothing is asked while a request is in flight, or for more
    /// when no page follows.
    pub fn request(&mut self, more: bool) -> (r: Option<ApiRequest>)
        ensures
            history_requested(*old(self), more, *final(self), r),
    {
        if self.loading || (more && self.continuation.is_none()) {
            return None;
        }
        self.loading = true;
        self.error = None;
        self.appending = more;
        self.request_id = self.request_id.wrapping_add(1);
        let continuation = if more {
            clone_opt_str(&self.continuation)
        } else {
            None
        };
        Some(ApiRequest::FetchHistory { request_id: self.request_id, continuation })
    }

    /// Takes a page result. Only the result for the request in flight
    /// counts. A first page replaces the tracks, a later one appends;
    /// a cursor that repeats the last one ends the paging, so "Load
    /// older" never loops. A failure keeps what shows.
    pub fn apply(&mut self, request_id: u64, result: Result<HistoryPage, String>)
        ensures
            history_applied(*old(self), request_id, result, *final(self)),
    {
        if request_id != self.request_id || !self.loading {
            return ;
        }
        self.loading = false;
        match result {
            Ok(page) => {
                let HistoryPage { tracks, continuation } = page;
                if !self.appending {
                    self.tracks.clear();
                }
                let mut tracks = tracks;
                self.tracks.append(&mut tracks);
                let repeated = match &continuation {
                    Some(_) => self.appending && same_opt_str(&continuation, &self.continuation),
                    None => false,
                };
                self.continuation = if repeated {
                    None
                } else {
                    continuation
                };
                self.loaded = true;
            },
            Err(error) => {
                self.error = Some(error);
            },
        }
    }
}

} // verus!
