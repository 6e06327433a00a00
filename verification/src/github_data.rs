//! The data that the pipeline reads out of the code-hosting API's responses.
//! Only the handful of fields the bus-factor computation needs are kept; the
//! transport layer fills these structs from the wire format before handing
//! them to the verified core.

use vstd::prelude::*;

verus! {

/// Information about one repository from the search endpoint.
#[derive(Debug)]
pub struct RepoData {
    pub contributors_url: String,
    pub name: String,
    pub stargazers_count: u64,
}

/// The ordered list of repositories reassembled from the search endpoint's
/// pages, in descending star rank as delivered upstream.
#[derive(Debug)]
pub struct Repos {
    pub items: Vec<RepoData>,
}

/// One contributor of a repository with its recorded contribution count.
#[derive(Debug)]
pub struct ContributorData {
    pub contributions: u64,
    pub login: String,
}

/// The contributor list of one repository, sorted descending by
/// contribution count as the upstream endpoint delivers it.
pub type Contributions = Vec<ContributorData>;

/// The sum of all recorded contributions in a contributor list.
pub open spec fn total_of(contributors: Seq<ContributorData>) -> int
    decreases contributors.len(),
{
    if contributors.len() == 0 {
        0
    } else {
        total_of(contributors.drop_last()) + contributors.last().contributions
    }
}

} // verus!
