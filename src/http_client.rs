use vstd::prelude::*;

verus! {

/// A failed HTTP request, with what went wrong.
#[derive(Debug)]
pub struct HttpClientError {
    details: String,
}

impl HttpClientError {
    pub closed spec fn details_view(&self) -> Seq<char> {
        self.details@
    }

    pub fn new(msg: &str) -> (r: Self)
        ensures
            r.details_view() == msg@,
    {
        HttpClientError { details: msg.to_string() }
    }

    /// What went wrong.
    pub fn details(&self) -> (r: &str)
        ensures
            r@ == self.details_view(),
    {
        self.details.as_str()
    }
}

} // verus!
