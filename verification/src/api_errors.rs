//! Error values surfaced by the bus-factor pipeline. A `ResponseError`
//! carries the diagnostic body of a failed upstream response, an
//! `InvalidQueryError` reports a caller-supplied parameter that makes no
//! sense, and an `EmptyContributorsError` reports an upstream contributor
//! list that was empty against the data source's own contract.

use vstd::prelude::*;

verus! {

/// Error returned by the API, containing information from the server.
#[derive(Debug)]
pub struct ResponseError {
    details: String,
}

impl View for ResponseError {
    type V = Seq<char>;

    closed spec fn view(&self) -> Seq<char> {
        self.details@
    }
}

impl ResponseError {
    pub fn new(msg: &str) -> (e: Self)
        ensures
            e@ == msg@,
    {
        Self { details: msg.to_owned() }
    }

    /// The diagnostic text as delivered by the server.
    pub fn details(&self) -> (d: &str)
        ensures
            d@ == self@,
    {
        self.details.as_str()
    }
}

/// Error for a request that is semantically invalid before any fetch is made.
#[derive(Debug)]
pub struct InvalidQueryError {
    details: String,
}

impl View for InvalidQueryError {
    type V = Seq<char>;

    closed spec fn view(&self) -> Seq<char> {
        self.details@
    }
}

impl InvalidQueryError {
    pub fn new(msg: &str) -> (e: Self)
        ensures
            e@ == msg@,
    {
        Self { details: msg.to_owned() }
    }

    /// The explanation of what made the query invalid.
    pub fn details(&self) -> (d: &str)
        ensures
            d@ == self@,
    {
        self.details.as_str()
    }
}

/// Error for a contributor list that came back empty although the upstream
/// source promises at least one entry for every repository.
#[derive(Debug)]
pub struct EmptyContributorsError {
    details: String,
}

impl View for EmptyContributorsError {
    type V = Seq<char>;

    closed spec fn view(&self) -> Seq<char> {
        self.details@
    }
}

impl EmptyContributorsError {
    pub fn new(msg: &str) -> (e: Self)
        ensures
            e@ == msg@,
    {
        Self { details: msg.to_owned() }
    }

    /// The explanation of the upstream contract violation.
    pub fn details(&self) -> (d: &str)
        ensures
            d@ == self@,
    {
        self.details.as_str()
    }
}

/// Any of the ways a single repository's share computation can fail.
#[derive(Debug)]
pub enum CalcError {
    /// The transport failed or the server answered with an error status.
    Response(ResponseError),
    /// The caller's parameters were rejected before any fetch.
    InvalidQuery(InvalidQueryError),
    /// The upstream contributor list was empty.
    EmptyContributors(EmptyContributorsError),
}

} // verus!
