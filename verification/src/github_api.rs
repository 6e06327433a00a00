//! The verified core of the bus-factor pipeline: paging arithmetic for the
//! search endpoint, the page plan and its reassembly, chunk planning for the
//! bounded worker pool, the order-preserving join of per-worker outcomes,
//! the contribution-share computation, and the threshold aggregation.

use vstd::prelude::*;

use vstd::arithmetic::div_mod::{lemma_fundamental_div_mod, lemma_fundamental_div_mod_converse};
use vstd::arithmetic::mul::{lemma_mul_inequality, lemma_mul_nonnegative, lemma_mul_upper_bound};

use crate::api_errors::{CalcError, EmptyContributorsError, InvalidQueryError, ResponseError};
use crate::github_data::{total_of, Contributions, RepoData, Repos};

verus! {

/// Max number of elements that fits on one page of the search endpoint.
pub const PAGE_LIMIT: u32 = 100;

/// Number of workers the bounded pool runs concurrently.
pub const N_WORKERS: usize = 5;

/// Parameters used for searching repositories.
#[derive(Debug)]
pub struct RepoQuery {
    pub language: String,
    pub count: u32,
}

/// An exact fraction `num / den`, used where the pipeline needs a share or a
/// threshold: contribution counts are integers, so every share of interest
/// is rational and never needs rounding.
#[derive(Clone, Copy, Debug, PartialEq, Eq, Structural)]
pub struct Ratio {
    pub num: u64,
    pub den: u64,
}

impl Ratio {
    /// A fraction makes sense only with a positive denominator.
    pub open spec fn wf(&self) -> bool {
        self.den > 0
    }
}

/// Parameters that characterize the bus-factor calculation.
#[derive(Debug)]
pub struct BusFactorQuery {
    /// Minimum share the most active contributor must reach for the
    /// repository to be reported.
    pub bus_threshold: Ratio,
    /// How many of the most active contributors enter the share computation.
    pub users_to_consider: u32,
    /// Pause between two sequential calls of one worker, in milliseconds.
    pub delay_ms: u64,
}

/// The most active contributor's share of a repository's recorded
/// contributions: `leader_contributions / total_contributions`, kept as an
/// exact fraction.
#[derive(Debug, PartialEq)]
pub struct UserShare {
    pub user_name: String,
    pub leader_contributions: u64,
    pub total_contributions: u128,
}

/// Repository information together with its most active contributor.
#[derive(Debug, PartialEq)]
pub struct BusFactor {
    pub leader: UserShare,
    pub repo_name: String,
    pub stars: u64,
}

/// One request against the paginated search endpoint.
#[derive(Clone, Copy, Debug, PartialEq, Eq, Structural)]
pub struct PageRequest {
    /// Page number; the endpoint counts pages starting at 1.
    pub page: u32,
    /// How many elements the request asks the page for.
    pub per_page: u32,
}

/// Number of pages holding `PAGE_LIMIT` elements each.
pub open spec fn spec_full_pages(count: u32) -> int {
    count as int / PAGE_LIMIT as int
}

/// Number of elements left over after the full pages.
pub open spec fn spec_last_page(count: u32) -> int {
    count as int % PAGE_LIMIT as int
}

/// Number of page requests a fetch of `count` elements issues.
pub open spec fn spec_page_requests(count: u32) -> int {
    spec_full_pages(count) + if spec_last_page(count) > 0 {
        1int
    } else {
        0int
    }
}

/// Entity used to communicate with the code-hosting API; it holds the
/// caller's access token for the transport layer to use.
pub struct GithubApi {
    token: String,
}

impl View for GithubApi {
    type V = Seq<char>;

    closed spec fn view(&self) -> Seq<char> {
        self.token@
    }
}

impl GithubApi {
    pub fn new(token: &str) -> (api: Self)
        ensures
            api@ == token@,
    {
        Self { token: token.to_owned() }
    }

    /// The stored access token, for the transport layer to attach to its
    /// requests.
    pub fn token(&self) -> (t: &str)
        ensures
            t@ == self@,
    {
        self.token.as_str()
    }

    /// For a given element count, the number of full pages and the residual.
    pub fn get_pages(count: u32) -> (r: (u32, u32))
        ensures
            r.0 == spec_full_pages(count),
            r.1 == spec_last_page(count),
    {
        (count / PAGE_LIMIT, count % PAGE_LIMIT)
    }

    /// The page plan for fetching `count` elements: one request per full
    /// page, in page order, and one more for the residual. The residual
    /// request asks for a full page whenever full pages exist, to keep the
    /// endpoint's pagination aligned, and for exactly the residual when the
    /// whole result fits on the first page.
    pub fn plan_pages(count: u32) -> (plan: Vec<PageRequest>)
        ensures
            plan@.len() == spec_page_requests(count),
            forall|i: int|
                0 <= i < spec_full_pages(count) ==> plan@[i] == (PageRequest {
                    page: (i + 1) as u32,
                    per_page: PAGE_LIMIT,
                }),
            spec_last_page(count) > 0 ==> plan@[spec_full_pages(count)] == (PageRequest {
                page: (spec_full_pages(count) + 1) as u32,
                per_page: if spec_full_pages(count) == 0 {
                    count
                } else {
                    PAGE_LIMIT
                },
            }),
    {
        let (full_pages, last_page) = Self::get_pages(count);
        let mut plan: Vec<PageRequest> = Vec::new();
        let mut page: u32 = 1;
        while page <= full_pages
            invariant
                full_pages == spec_full_pages(count),
                full_pages <= count,
                1 <= page <= full_pages + 1,
                plan@.len() == page - 1,
                forall|i: int|
                    0 <= i < page - 1 ==> plan@[i] == (PageRequest {
                        page: (i + 1) as u32,
                        per_page: PAGE_LIMIT,
                    }),
            decreases full_pages + 1 - page,
        {
            plan.push(PageRequest { page, per_page: PAGE_LIMIT });
            page = page + 1;
        }
        if last_page > 0 {
            let per_page = if full_pages == 0 {
                count
            } else {
                PAGE_LIMIT
            };
            plan.push(PageRequest { page: full_pages + 1, per_page });
        }
        plan
    }

    /// Reassemble the fetched pages into one ordered collection of exactly
    /// `count` repositories: the full pages concatenated in page order —
    /// order of issuance, never order of completion — and then the first
    /// `remainder` entries of the residual page, which may hold more.
    pub fn assemble_repos(pages: Vec<Repos>, count: u32) -> (r: Repos)
        requires
            pages@.len() == spec_page_requests(count),
            forall|p: int|
                0 <= p < spec_full_pages(count) ==> (#[trigger] pages@[p]).items@.len()
                    == PAGE_LIMIT,
            spec_last_page(count) > 0 ==> pages@[spec_full_pages(count)].items@.len()
                >= spec_last_page(count),
        ensures
            r.items@.len() == count,
            forall|i: int|
                0 <= i < spec_full_pages(count) * (PAGE_LIMIT as int) ==> #[trigger] r.items@[i]
                    == pages@[i / (PAGE_LIMIT as int)].items@[i % (PAGE_LIMIT as int)],
            forall|i: int|
                spec_full_pages(count) * (PAGE_LIMIT as int) <= i < count ==> #[trigger] r.items@[i]
                    == pages@[spec_full_pages(count)].items@[i - spec_full_pages(count) * (
                PAGE_LIMIT as int)],
    {
        let ghost all_pages = pages@;
        let (full_pages, last_page) = Self::get_pages(count);
        let mut pages = pages;
        let mut items: Vec<RepoData> = Vec::new();
        let mut j: u32 = 0;
        while j < full_pages
            invariant
                full_pages == spec_full_pages(count),
                all_pages.len() == spec_page_requests(count),
                forall|p: int|
                    0 <= p < spec_full_pages(count) ==> (#[trigger] all_pages[p]).items@.len()
                        == PAGE_LIMIT,
                j <= full_pages,
                pages@ == all_pages.skip(j as int),
                items@.len() == j as int * (PAGE_LIMIT as int),
                forall|i: int|
                    0 <= i < j as int * (PAGE_LIMIT as int) ==> #[trigger] items@[i]
                        == all_pages[i / (PAGE_LIMIT as int)].items@[i % (PAGE_LIMIT as int)],
            decreases full_pages - j,
        {
            proof {
                assert(all_pages.skip(j as int).remove(0) =~= all_pages.skip(j as int + 1));
            }
            let mut page = pages.remove(0);
            items.append(&mut page.items);
            proof {
                assert forall|i: int|
                    0 <= i < (j as int + 1) * (PAGE_LIMIT as int) implies #[trigger] items@[i]
                    == all_pages[i / (PAGE_LIMIT as int)].items@[i % (PAGE_LIMIT as int)] by {
                    if i >= j as int * (PAGE_LIMIT as int) {
                        lemma_fundamental_div_mod_converse(
                            i,
                            PAGE_LIMIT as int,
                            j as int,
                            i - j as int * (PAGE_LIMIT as int),
                        );
                    }
                }
            }
            j = j + 1;
        }
        if last_page > 0 {
            let mut last = pages.remove(0);
            last.items.truncate(last_page as usize);
            items.append(&mut last.items);
        }
        proof {
            lemma_fundamental_div_mod(count as int, PAGE_LIMIT as int);
        }
        Repos { items }
    }
}

/// Whether a share `leader / total` reaches the threshold `thr`, as the
/// exact rational comparison `leader * thr.den >= thr.num * total`. A zero
/// total — no recorded contributions at all — reaches no threshold.
pub open spec fn spec_share_meets(leader: u64, total: u128, thr: Ratio) -> bool {
    total > 0 && leader as int * thr.den as int >= thr.num as int * total as int
}

/// Compare a contributor's share against the dominance threshold, without
/// ever leaving integer arithmetic.
pub fn share_meets_threshold(share: &UserShare, thr: &Ratio) -> (met: bool)
    requires
        thr.wf(),
    ensures
        met == spec_share_meets(share.leader_contributions, share.total_contributions, *thr),
{
    let total = share.total_contributions;
    if total == 0 {
        return false;
    }
    let leader = share.leader_contributions as u128;
    let den = thr.den as u128;
    let num = thr.num as u128;
    proof {
        lemma_mul_upper_bound(leader as int, u64::MAX as int, den as int, u64::MAX as int);
    }
    let lhs = leader * den;
    if num == 0 {
        proof {
            lemma_mul_nonnegative(leader as int, den as int);
        }
        true
    } else if total > u128::MAX / num {
        proof {
            lemma_fundamental_div_mod(u128::MAX as int, num as int);
            lemma_mul_inequality(
                u128::MAX as int / num as int + 1,
                total as int,
                num as int,
            );
            assert((u128::MAX as int / num as int + 1) * num as int == num as int * (
            u128::MAX as int / num as int) + num as int) by (nonlinear_arith);
            assert(total as int * num as int == num as int * total as int)
                by (nonlinear_arith);
        }
        false
    } else {
        proof {
            lemma_fundamental_div_mod(u128::MAX as int, num as int);
            lemma_mul_inequality(
                total as int,
                u128::MAX as int / num as int,
                num as int,
            );
            assert((u128::MAX as int / num as int) * num as int == num as int * (
            u128::MAX as int / num as int)) by (nonlinear_arith);
            assert(total as int * num as int == num as int * total as int)
                by (nonlinear_arith);
        }
        lhs >= num * total
    }
}

/// Reject a share query before any fetch is made: asking for the top zero
/// contributors makes no sense.
pub fn validate_users_to_consider(users_to_consider: u32) -> (r: Result<
    (),
    InvalidQueryError,
>)
    ensures
        r is Err <==> users_to_consider == 0,
        r matches Result::Err(e) ==> e@
            == "Number of users to consider must be greater than 0."@,
{
    if users_to_consider == 0 {
        Result::Err(
            InvalidQueryError::new("Number of users to consider must be greater than 0."),
        )
    } else {
        Result::Ok(())
    }
}

/// Turn one fetched contributor list into the repository's share outcome:
/// a transport failure is carried through, an empty list — which the
/// upstream source promises never to deliver — is surfaced as its own
/// error, and otherwise the first contributor (the upstream order is
/// descending by contribution count) is the leader, with the total summed
/// over the fetched set only.
pub fn share_outcome(fetched: Result<Contributions, ResponseError>) -> (r: Result<
    UserShare,
    CalcError,
>)
    ensures
        fetched matches Result::Err(e) ==> r == Result::<UserShare, CalcError>::Err(
            CalcError::Response(e),
        ),
        fetched is Ok && fetched->Ok_0@.len() == 0 ==> (r matches Result::Err(
            CalcError::EmptyContributors(emp),
        ) && emp@ == "Upstream returned an empty contributor list."@),
        fetched is Ok && fetched->Ok_0@.len() > 0 ==> (r matches Result::Ok(s)
            && s.user_name == fetched->Ok_0@[0].login && s.leader_contributions
            == fetched->Ok_0@[0].contributions && s.total_contributions == total_of(
            fetched->Ok_0@,
        )),
{
    match fetched {
        Result::Err(e) => Result::Err(CalcError::Response(e)),
        Result::Ok(mut list) => {
            if list.len() == 0 {
                Result::Err(
                    CalcError::EmptyContributors(
                        EmptyContributorsError::new(
                            "Upstream returned an empty contributor list.",
                        ),
                    ),
                )
            } else {
                let ghost all = list@;
                let mut total: u128 = 0;
                let mut i: usize = 0;
                while i < list.len()
                    invariant
                        list@ == all,
                        i <= all.len(),
                        total == total_of(all.take(i as int)),
                        total <= i as int * (u64::MAX as int),
                    decreases all.len() - i,
                {
                    proof {
                        assert(all.take(i as int + 1).drop_last() =~= all.take(i as int));
                        assert(all.take(i as int + 1).last() == all[i as int]);
                    }
                    total = total + list[i].contributions as u128;
                    i = i + 1;
                }
                proof {
                    assert(all.take(all.len() as int) =~= all);
                }
                let leader = list.remove(0);
                Result::Ok(
                    UserShare {
                        user_name: leader.login,
                        leader_contributions: leader.contributions,
                        total_contributions: total,
                    },
                )
            }
        },
    }
}

/// The share values inside a list of outcomes; meaningful where every
/// outcome is a success.
pub open spec fn spec_shares(outs: Seq<Result<UserShare, CalcError>>) -> Seq<UserShare> {
    outs.map_values(|o: Result<UserShare, CalcError>| o->Ok_0)
}

/// Index `i` holds the first failure of the outcome list: everything before
/// it succeeded.
pub open spec fn spec_first_err_at(outs: Seq<Result<UserShare, CalcError>>, i: int) -> bool {
    &&& 0 <= i < outs.len()
    &&& outs[i] is Err
    &&& forall|j: int| 0 <= j < i ==> outs[j] is Ok
}

/// The aggregated report over repositories and their shares: exactly the
/// repositories whose leader reaches the threshold, in input order, each
/// paired with its name and star count.
pub open spec fn spec_aggregated(
    repos: Seq<RepoData>,
    shares: Seq<UserShare>,
    thr: Ratio,
) -> Seq<BusFactor>
    decreases repos.len(),
{
    if repos.len() == 0 {
        Seq::empty()
    } else {
        let rest = spec_aggregated(repos.drop_last(), shares.drop_last(), thr);
        let s = shares.last();
        if spec_share_meets(s.leader_contributions, s.total_contributions, thr) {
            rest.push(
                BusFactor {
                    leader: s,
                    repo_name: repos.last().name,
                    stars: repos.last().stargazers_count,
                },
            )
        } else {
            rest
        }
    }
}

/// Join the per-repository outcomes back to the repository metadata and
/// filter by the dominance threshold. The first failure — in repository
/// order, never in completion order — fails the whole aggregation; absent
/// failures, the report holds exactly the repositories whose leader's share
/// reaches the threshold, in input order.
#[verifier::loop_isolation(false)]
pub fn aggregate(
    repos: Repos,
    outcomes: Vec<Result<UserShare, CalcError>>,
    threshold: Ratio,
) -> (r: Result<Vec<BusFactor>, CalcError>)
    requires
        threshold.wf(),
        outcomes@.len() == repos.items@.len(),
    ensures
        r is Err <==> exists|i: int| spec_first_err_at(outcomes@, i),
        forall|i: int|
            spec_first_err_at(outcomes@, i) ==> r == Result::<Vec<BusFactor>, CalcError>::Err(
                outcomes@[i]->Err_0,
            ),
        r matches Result::Ok(report) ==> report@ == spec_aggregated(
            repos.items@,
            spec_shares(outcomes@),
            threshold,
        ),
{
    let ghost all_repos = repos.items@;
    let ghost all_outs = outcomes@;
    let mut items = repos.items;
    let mut outs = outcomes;
    let mut report: Vec<BusFactor> = Vec::new();
    let n = items.len();
    let mut k: usize = 0;
    while k < n
        invariant
            threshold.wf(),
            n == all_repos.len(),
            all_outs.len() == n,
            k <= n,
            items@ == all_repos.skip(k as int),
            outs@ == all_outs.skip(k as int),
            forall|j: int| 0 <= j < k ==> all_outs[j] is Ok,
            report@ == spec_aggregated(
                all_repos.take(k as int),
                spec_shares(all_outs).take(k as int),
                threshold,
            ),
        decreases n - k,
    {
        proof {
            assert(all_repos.skip(k as int).remove(0) =~= all_repos.skip(k as int + 1));
            assert(all_outs.skip(k as int).remove(0) =~= all_outs.skip(k as int + 1));
        }
        let repo = items.remove(0);
        let out = outs.remove(0);
        proof {
            assert(repo == all_repos[k as int]);
            assert(out == all_outs[k as int]);
        }
        match out {
            Result::Err(e) => {
                proof {
                    assert(out == Result::<UserShare, CalcError>::Err(e));
                    assert(outcomes@ == all_outs);
                    assert(spec_first_err_at(outcomes@, k as int));
                    assert(outcomes@[k as int]->Err_0 == e);
                    assert forall|i: int| spec_first_err_at(outcomes@, i) implies i
                        == k as int by {
                        if i < k as int {
                            assert(outcomes@[i] is Ok);
                        }
                        if i > k as int {
                            assert(outcomes@[k as int] is Ok);
                        }
                    }
                }
                return Result::Err(e);
            },
            Result::Ok(share) => {
                proof {
                    assert(spec_shares(all_outs)[k as int] == share);
                    assert(all_repos.take(k as int + 1).drop_last() =~= all_repos.take(
                        k as int,
                    ));
                    assert(spec_shares(all_outs).take(k as int + 1).drop_last()
                        =~= spec_shares(all_outs).take(k as int));
                    assert(all_repos.take(k as int + 1).last() == all_repos[k as int]);
                    assert(spec_shares(all_outs).take(k as int + 1).last() == spec_shares(
                        all_outs,
                    )[k as int]);
                }
                if share_meets_threshold(&share, &threshold) {
                    report.push(
                        BusFactor {
                            leader: share,
                            repo_name: repo.name,
                            stars: repo.stargazers_count,
                        },
                    );
                }
            },
        }
        k = k + 1;
    }
    proof {
        assert(all_repos.take(n as int) =~= all_repos);
        assert(spec_shares(all_outs).take(n as int) =~= spec_shares(all_outs));
    }
    Result::Ok(report)
}

} // verus!
