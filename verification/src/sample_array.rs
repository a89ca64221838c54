use vstd::prelude::*;
use ndarray::Array1;

use crate::http_request::{HttpRequest, HttpRequestView};

verus! {

/// A one-dimensional `ndarray` array of requests.
#[verifier::external_body]
pub struct RequestArray {
    inner: Array1<HttpRequest>,
}

/// The requests that an array holds, in index order.
pub uninterp spec fn array_requests(a: RequestArray) -> Seq<HttpRequestView>;

impl RequestArray {
    /// Calls `ndarray::Array1::from_vec`: an array that holds the vector's
    /// elements in order.
    #[verifier::external_body]
    pub fn from_vec(v: Vec<HttpRequest>) -> (a: RequestArray)
        ensures
            array_requests(a) == v@.map_values(|r: HttpRequest| r@),
    {
        RequestArray { inner: Array1::from_vec(v) }
    }

    /// Calls `ndarray::ArrayBase::len`: the number of elements of the array.
    #[verifier::external_body]
    pub fn len(&self) -> (n: usize)
        ensures
            n == array_requests(*self).len(),
    {
        self.inner.len()
    }

    /// Indexes the array with `ndarray`'s `Index` impl: the element at
    /// position `i`.
    #[verifier::external_body]
    pub fn get(&self, i: usize) -> (r: &HttpRequest)
        requires
            i < array_requests(*self).len(),
        ensures
            r@ == array_requests(*self)[i as int],
    {
        &self.inner[i]
    }
}

} // verus!
