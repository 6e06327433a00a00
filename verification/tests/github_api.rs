use bus_factor::api_errors::CalcError;
use bus_factor::api_errors::ResponseError;
use bus_factor::github_api::aggregate;
use bus_factor::github_api::share_meets_threshold;
use bus_factor::github_api::share_outcome;
use bus_factor::github_api::validate_users_to_consider;
use bus_factor::github_api::GithubApi;
use bus_factor::github_api::PageRequest;
use bus_factor::github_api::Ratio;
use bus_factor::github_api::UserShare;
use bus_factor::github_data::ContributorData;
use bus_factor::github_data::RepoData;
use bus_factor::github_data::Repos;

fn repo(name: &str, stars: u64) -> RepoData {
    RepoData {
        contributors_url: format!("https://api.example.test/repos/{}/contributors", name),
        name: name.to_string(),
        stargazers_count: stars,
    }
}

fn contributor(login: &str, contributions: u64) -> ContributorData {
    ContributorData {
        contributions,
        login: login.to_string(),
    }
}

/// A page of `count` repositories whose names carry the page tag and the
/// position on the page.
fn page(tag: &str, count: usize) -> Repos {
    let mut items = Vec::new();
    for i in 0..count {
        items.push(repo(&format!("{}_{}", tag, i), 1000 - i as u64));
    }
    Repos { items }
}

#[test]
fn test_get_pages() {
    // Result that fits on one page
    let (full_pages, last_page) = GithubApi::get_pages(50);
    assert_eq!(full_pages, 0);
    assert_eq!(last_page, 50);

    // Result that comes to second page
    let (full_pages, last_page) = GithubApi::get_pages(101);
    assert_eq!(full_pages, 1);
    assert_eq!(last_page, 1);

    // Huuuge result
    let (full_pages, last_page) = GithubApi::get_pages(2531);
    assert_eq!(full_pages, 25);
    assert_eq!(last_page, 31);

    // Weird, but correct
    let (full_pages, last_page) = GithubApi::get_pages(0);
    assert_eq!(full_pages, 0);
    assert_eq!(last_page, 0);
}

#[test]
fn page_plan_shapes() {
    assert_eq!(GithubApi::plan_pages(0), Vec::<PageRequest>::new());
    assert_eq!(
        GithubApi::plan_pages(50),
        vec![PageRequest {
            page: 1,
            per_page: 50
        }]
    );
    assert_eq!(
        GithubApi::plan_pages(101),
        vec![
            PageRequest {
                page: 1,
                per_page: 100
            },
            PageRequest {
                page: 2,
                per_page: 100
            }
        ]
    );
    assert_eq!(
        GithubApi::plan_pages(200),
        vec![
            PageRequest {
                page: 1,
                per_page: 100
            },
            PageRequest {
                page: 2,
                per_page: 100
            }
        ]
    );
}

/// Paging math: the reconstructed collection has exactly the requested
/// length, for a zero, a one-page, a two-page and a large request.
#[test]
fn reconstructed_length_matches_target() {
    for &target in &[0u32, 50, 101, 2531] {
        let plan = GithubApi::plan_pages(target);
        let mut pages = Vec::new();
        for request in &plan {
            pages.push(page(&format!("p{}", request.page), request.per_page as usize));
        }
        let assembled = GithubApi::assemble_repos(pages, target);
        assert_eq!(assembled.items.len(), target as usize);
    }
}

/// The final collection's last `remainder` items come from the remainder
/// page's first `remainder` entries, not from its full content.
#[test]
fn remainder_comes_from_remainder_page_prefix() {
    let pages = vec![page("p1", 100), page("p2", 100)];
    let assembled = GithubApi::assemble_repos(pages, 150);
    assert_eq!(assembled.items.len(), 150);
    assert_eq!(assembled.items[0].name, "p1_0");
    assert_eq!(assembled.items[99].name, "p1_99");
    assert_eq!(assembled.items[100].name, "p2_0");
    assert_eq!(assembled.items[149].name, "p2_49");
    assert!(assembled.items.iter().all(|r| r.name != "p2_50"));
}

/// Contributor counts [15, 3, 1] give the leader 15 of 19 recorded
/// contributions, about 0.789.
#[test]
fn leader_share_among_top_three() {
    let list = vec![
        contributor("user1", 15),
        contributor("user2", 3),
        contributor("user3", 1),
    ];
    let share = share_outcome(Ok(list)).unwrap();
    assert_eq!(share.user_name, "user1");
    assert_eq!(share.leader_contributions, 15);
    assert_eq!(share.total_contributions, 19);
    let as_float = share.leader_contributions as f64 / share.total_contributions as f64;
    assert!((as_float - 0.789).abs() < 0.001);
}

/// A zero contributor cutoff is rejected before any fetch happens.
#[test]
fn zero_users_rejected_before_fetch() {
    let mut fetch_calls = 0u32;
    let users_to_consider = 0u32;
    // validate first, fetch only on success, as the driver does
    let outcome: Result<(), _> = match validate_users_to_consider(users_to_consider) {
        Err(e) => Err(e),
        Ok(()) => {
            fetch_calls += 1;
            panic!("the fake transport must not be reached");
        }
    };
    assert_eq!(fetch_calls, 0);
    let err = outcome.unwrap_err();
    assert_eq!(
        err.details(),
        "Number of users to consider must be greater than 0."
    );
    assert!(validate_users_to_consider(1).is_ok());
    assert!(validate_users_to_consider(25).is_ok());
}

/// An empty contributor list is surfaced as its own error instead of a
/// division by zero.
#[test]
fn empty_contributors_surfaced() {
    let outcome = share_outcome(Ok(Vec::new()));
    match outcome {
        Err(CalcError::EmptyContributors(e)) => {
            assert_eq!(e.details(), "Upstream returned an empty contributor list.");
        }
        _ => panic!("expected the empty-contributors error"),
    }
}

/// A transport failure is carried through the share computation unchanged.
#[test]
fn response_error_propagates_through_share() {
    let outcome = share_outcome(Err(ResponseError::new("rate limited")));
    match outcome {
        Err(CalcError::Response(e)) => assert_eq!(e.details(), "rate limited"),
        _ => panic!("expected the transport error"),
    }
}

/// The total is summed in 128 bits, so contributor counts near the 64-bit
/// limit do not wrap.
#[test]
fn total_sums_beyond_u64() {
    let list = vec![
        contributor("big1", u64::MAX),
        contributor("big2", u64::MAX),
        contributor("small", 5),
    ];
    let share = share_outcome(Ok(list)).unwrap();
    assert_eq!(share.leader_contributions, u64::MAX);
    assert_eq!(share.total_contributions, 2 * (u64::MAX as u128) + 5);
}

/// The dominance comparison is exact: a share equal to the threshold is
/// reported, one marginally below is not, and a zero total reaches nothing.
#[test]
fn threshold_boundary_is_inclusive() {
    let threshold = Ratio { num: 3, den: 4 };
    let exactly = UserShare {
        user_name: "a".to_string(),
        leader_contributions: 3,
        total_contributions: 4,
    };
    assert!(share_meets_threshold(&exactly, &threshold));
    let below = UserShare {
        user_name: "b".to_string(),
        leader_contributions: 2999,
        total_contributions: 4000,
    };
    assert!(!share_meets_threshold(&below, &threshold));
    let no_contributions = UserShare {
        user_name: "c".to_string(),
        leader_contributions: 0,
        total_contributions: 0,
    };
    assert!(!share_meets_threshold(
        &no_contributions,
        &Ratio { num: 0, den: 1 }
    ));
}

/// Three repositories with shares 0.947, 0.60 and 0.80 against a threshold
/// of 0.75: exactly the first and the third are reported, in their original
/// order, with their names and star counts.
#[test]
fn end_to_end_threshold_filtering() {
    let repos = Repos {
        items: vec![repo("alpha", 300), repo("beta", 200), repo("gamma", 100)],
    };
    let outcomes = vec![
        share_outcome(Ok(vec![contributor("ann", 18), contributor("al", 1)])),
        share_outcome(Ok(vec![contributor("bob", 3), contributor("bea", 2)])),
        share_outcome(Ok(vec![contributor("cat", 4), contributor("cy", 1)])),
    ];
    let report = aggregate(repos, outcomes, Ratio { num: 3, den: 4 }).unwrap();
    assert_eq!(report.len(), 2);
    assert_eq!(report[0].repo_name, "alpha");
    assert_eq!(report[0].stars, 300);
    assert_eq!(report[0].leader.user_name, "ann");
    let first = report[0].leader.leader_contributions as f64
        / report[0].leader.total_contributions as f64;
    assert!((first - 0.947).abs() < 0.001);
    assert_eq!(report[1].repo_name, "gamma");
    assert_eq!(report[1].stars, 100);
    assert_eq!(report[1].leader.user_name, "cat");
    let second = report[1].leader.leader_contributions as f64
        / report[1].leader.total_contributions as f64;
    assert!((second - 0.80).abs() < 0.001);
}

/// A failure on the second of three contributor fetches fails the whole
/// aggregation with that error, although the first and third succeeded.
#[test]
fn second_failure_fails_aggregation() {
    let repos = Repos {
        items: vec![repo("one", 3), repo("two", 2), repo("three", 1)],
    };
    let outcomes = vec![
        share_outcome(Ok(vec![contributor("u1", 10)])),
        share_outcome(Err(ResponseError::new("contributor list too big"))),
        share_outcome(Ok(vec![contributor("u3", 7)])),
    ];
    let err = aggregate(repos, outcomes, Ratio { num: 1, den: 2 }).unwrap_err();
    match err {
        CalcError::Response(e) => assert_eq!(e.details(), "contributor list too big"),
        _ => panic!("expected the transport error of the second call"),
    }
}

/// An empty repository list aggregates to an empty report.
#[test]
fn empty_aggregation_is_empty() {
    let repos = Repos { items: Vec::new() };
    let report = aggregate(repos, Vec::new(), Ratio { num: 3, den: 4 }).unwrap();
    assert!(report.is_empty());
}

#[test]
fn token_is_kept() {
    let api = GithubApi::new("token123");
    assert_eq!(api.token(), "token123");
}
