use easyhyoka::error::PipelineError;
use easyhyoka::model::{ActivityRecord, Comment, CommentAuthor, ItemKind, Repository};
use easyhyoka::normalizer::{
    ActivityReply, CommentReply, CommentRequest, Normalizer, COMMENT_SAMPLE_SIZE,
};
use easyhyoka::source::{truncation_suspected, RESULT_LIMIT};

fn record(number: u32) -> ActivityRecord {
    ActivityRecord {
        number,
        title: format!("title {}", number),
        body: if number % 2 == 0 { None } else { Some(format!("body {}", number)) },
        created_at: "2025-02-01T00:00:00Z".to_string(),
        state: "open".to_string(),
        url: format!("https://github.com/org/repo{}/issues/{}", number % 3, number),
        repository: Repository { name_with_owner: format!("org/repo{}", number % 3) },
    }
}

fn records(count: u32) -> Vec<ActivityRecord> {
    (1..=count).map(record).collect()
}

fn comment(body: &str) -> Comment {
    Comment {
        author: Some(CommentAuthor { login: "bob".to_string() }),
        body: body.to_string(),
        created_at: "2025-02-02T00:00:00Z".to_string(),
    }
}

fn commented(items: &[easyhyoka::model::ActivityItem]) -> usize {
    items.iter().filter(|item| !item.comments.is_empty()).count()
}

fn run_with_comments(kind: ItemKind, count: u32) -> (Vec<easyhyoka::model::ActivityItem>, usize) {
    let mut normalizer = Normalizer::new(kind, records(count));
    let mut queries = 0;
    while let Some(request) = normalizer.pending() {
        queries += 1;
        assert!(queries <= 1000);
        let noted = normalizer.record(CommentReply::Fetched {
            comments: vec![comment(&format!("on {}", request.number))],
        });
        assert_eq!(noted, None);
    }
    (normalizer.finish(), queries)
}

#[test]
fn at_most_five_items_get_comments() {
    for (count, expected) in [(0u32, 0usize), (3, 3), (5, 5), (12, 5)] {
        let (items, queries) = run_with_comments(ItemKind::PullRequest, count);
        assert_eq!(items.len(), count as usize);
        assert_eq!(queries, expected);
        assert_eq!(commented(&items), expected);
        assert!(commented(&items) <= COMMENT_SAMPLE_SIZE);
        for (i, item) in items.iter().enumerate() {
            if i < 5 {
                assert_eq!(item.comments, vec![comment(&format!("on {}", i + 1))]);
            } else {
                assert!(item.comments.is_empty());
            }
        }
    }
}

#[test]
fn the_sample_is_taken_per_kind() {
    let (prs, pr_queries) = run_with_comments(ItemKind::PullRequest, 12);
    let (issues, issue_queries) = run_with_comments(ItemKind::Issue, 7);
    assert_eq!(pr_queries, 5);
    assert_eq!(issue_queries, 5);
    assert_eq!(commented(&prs), 5);
    assert_eq!(commented(&issues), 5);
    assert!(prs.iter().all(|item| item.kind == ItemKind::PullRequest));
    assert!(issues.iter().all(|item| item.kind == ItemKind::Issue));
}

#[test]
fn records_become_items_in_order_without_comments() {
    let normalizer = Normalizer::new(ItemKind::Issue, records(4));
    let items = normalizer.finish();
    assert_eq!(items.len(), 4);
    for (i, item) in items.iter().enumerate() {
        let source = record(i as u32 + 1);
        assert_eq!(item.kind, ItemKind::Issue);
        assert_eq!(item.number, source.number);
        assert_eq!(item.title, source.title);
        assert_eq!(item.body, source.body);
        assert_eq!(item.created_at, source.created_at);
        assert_eq!(item.state, source.state);
        assert_eq!(item.url, source.url);
        assert_eq!(item.repository, source.repository);
        assert!(item.comments.is_empty());
    }
}

#[test]
fn requests_name_the_items_in_query_order() {
    let mut normalizer = Normalizer::new(ItemKind::PullRequest, records(6));
    let mut seen = Vec::new();
    while let Some(request) = normalizer.pending() {
        seen.push(request);
        normalizer.record(CommentReply::Failed);
    }
    let expected: Vec<CommentRequest> = (1..=5u32)
        .map(|n| CommentRequest {
            repository: format!("org/repo{}", n % 3),
            kind: ItemKind::PullRequest,
            number: n,
        })
        .collect();
    assert_eq!(seen, expected);
}

#[test]
fn pending_does_not_advance() {
    let normalizer = Normalizer::new(ItemKind::PullRequest, records(2));
    let first = normalizer.pending();
    let again = normalizer.pending();
    assert_eq!(first, again);
    assert_eq!(first.unwrap().number, 1);
}

#[test]
fn a_failed_comment_query_leaves_the_others_untouched() {
    let mut normalizer = Normalizer::new(ItemKind::PullRequest, records(5));
    let mut asked = Vec::new();
    while let Some(request) = normalizer.pending() {
        asked.push(request.number);
        if request.number == 2 {
            let noted = normalizer.record(CommentReply::Failed);
            assert_eq!(noted, Some(PipelineError::CommentFetchFailed));
            assert!(!noted.unwrap().fatal());
        } else {
            let noted = normalizer.record(CommentReply::Fetched {
                comments: vec![
                    comment(&format!("first on {}", request.number)),
                    comment(&format!("second on {}", request.number)),
                ],
            });
            assert_eq!(noted, None);
        }
    }
    assert_eq!(asked, vec![1, 2, 3, 4, 5]);
    let items = normalizer.finish();
    assert_eq!(items.len(), 5);
    for item in &items {
        if item.number == 2 {
            assert!(item.comments.is_empty());
        } else {
            assert_eq!(
                item.comments,
                vec![
                    comment(&format!("first on {}", item.number)),
                    comment(&format!("second on {}", item.number)),
                ]
            );
        }
    }
}

#[test]
fn a_reply_without_a_pending_query_is_dropped() {
    let mut normalizer = Normalizer::new(ItemKind::Issue, records(2));
    normalizer.record(CommentReply::Fetched { comments: vec![comment("a")] });
    normalizer.record(CommentReply::Fetched { comments: Vec::new() });
    assert!(normalizer.pending().is_none());
    assert_eq!(normalizer.record(CommentReply::Fetched { comments: vec![comment("late")] }), None);
    assert_eq!(normalizer.record(CommentReply::Failed), None);
    assert!(normalizer.pending().is_none());
    let items = normalizer.finish();
    assert_eq!(items[0].comments, vec![comment("a")]);
    assert!(items[1].comments.is_empty());

    let mut empty = Normalizer::new(ItemKind::Issue, Vec::new());
    assert!(empty.pending().is_none());
    empty.record(CommentReply::Fetched { comments: vec![comment("late")] });
    assert!(empty.finish().is_empty());
}

#[test]
fn exactly_one_thousand_results_raise_the_warning() {
    assert_eq!(RESULT_LIMIT, 1000);
    assert!(truncation_suspected(1000));
    assert!(!truncation_suspected(999));
    assert!(!truncation_suspected(1001));
    assert!(!truncation_suspected(0));
    let full = Normalizer::new(ItemKind::PullRequest, records(1000));
    assert!(full.truncation_suspected());
    let nearly = Normalizer::new(ItemKind::PullRequest, records(999));
    assert!(!nearly.truncation_suspected());
    let none = Normalizer::new(ItemKind::PullRequest, Vec::new());
    assert!(!none.truncation_suspected());
}

#[test]
fn a_failed_or_malformed_activity_query_is_fatal() {
    let failed = Normalizer::start(
        ItemKind::PullRequest,
        ActivityReply::Failed { detail: "exit status 1: not logged in".to_string() },
    );
    match failed {
        Err(error) => {
            assert_eq!(
                error,
                PipelineError::SourceUnavailable {
                    detail: "exit status 1: not logged in".to_string()
                }
            );
            assert!(error.fatal());
        }
        Ok(_) => panic!("a failed query gave items"),
    }
    let malformed = Normalizer::start(
        ItemKind::Issue,
        ActivityReply::Malformed { detail: "EOF while parsing a value".to_string() },
    );
    match malformed {
        Err(error) => assert_eq!(
            error,
            PipelineError::SourceUnavailable { detail: "EOF while parsing a value".to_string() }
        ),
        Ok(_) => panic!("a malformed result gave items"),
    }
    let answered =
        Normalizer::start(ItemKind::Issue, ActivityReply::Records { records: records(3) });
    match answered {
        Ok(normalizer) => assert_eq!(normalizer.finish().len(), 3),
        Err(_) => panic!("records were refused"),
    }
}
