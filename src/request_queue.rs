use std::collections::VecDeque;
use vstd::prelude::*;

use crate::http_request::HttpRequest;
use crate::http_response::{error_view, ErrorPages, HttpResponse};

verus! {

/// A bounded first-in first-out queue of the requests of one connection.
pub struct RequestQueue {
    pub requests: VecDeque<HttpRequest>,
    pub max_queued: usize,
}

impl RequestQueue {
    pub fn new(max_queued: usize) -> (r: Self)
        ensures
            r.requests@.len() == 0,
            r.max_queued == max_queued,
    {
        Self { requests: VecDeque::new(), max_queued }
    }

    /// Queues a request at the back. A queue that already holds `max_queued` requests refuses it
    /// and answers 503.
    pub fn push(&mut self, request: HttpRequest, error_page: &ErrorPages) -> (r: Result<
        (),
        HttpResponse,
    >)
        ensures
            final(self).max_queued == old(self).max_queued,
            old(self).requests@.len() < old(self).max_queued ==> r is Ok && final(self).requests@
                == old(self).requests@.push(request),
            old(self).requests@.len() >= old(self).max_queued ==> final(self).requests@ == old(self).requests@ && (r matches Err(e) && e@ == error_view(
                503,
                "Service Unavailable"@,
                error_page@,
            )),
    {
        if self.requests.len() >= self.max_queued {
            return Err(HttpResponse::service_unavailable(error_page));
        }
        self.requests.push_back(request);
        Ok(())
    }

    /// Takes the oldest request, if any.
    pub fn pop(&mut self) -> (r: Option<HttpRequest>)
        ensures
            final(self).max_queued == old(self).max_queued,
            old(self).requests@.len() == 0 ==> r is None && final(self).requests@ == old(self).requests@,
            old(self).requests@.len() > 0 ==> r == Some(old(self).requests@[0]) && final(self).requests@ == old(self).requests@.drop_first(),
    {
        self.requests.pop_front()
    }

    pub fn len(&self) -> (r: usize)
        ensures
            r == self.requests@.len(),
    {
        self.requests.len()
    }
}

} // verus!
