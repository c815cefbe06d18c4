use easyhyoka::model::{Comment, CommentAuthor, ItemKind};
use easyhyoka::source::{activity_query, comment_lines, comment_query, keep_parsed};

fn strings(words: &[&str]) -> Vec<String> {
    words.iter().map(|w| w.to_string()).collect()
}

fn comment(body: &str) -> Comment {
    Comment {
        author: Some(CommentAuthor { login: "bob".to_string() }),
        body: body.to_string(),
        created_at: "2025-02-02T00:00:00Z".to_string(),
    }
}

#[test]
fn activity_query_for_pull_requests() {
    assert_eq!(
        activity_query(ItemKind::PullRequest, "org", "alice", "2025-01-01", "2025-06-30"),
        strings(&[
            "search",
            "prs",
            "--owner=org",
            "--author=alice",
            "--created=2025-01-01..2025-06-30",
            "--limit=1000",
            "--json=number,title,body,createdAt,state,url,repository",
        ])
    );
}

#[test]
fn activity_query_for_issues() {
    assert_eq!(
        activity_query(ItemKind::Issue, "o", "", "a", "b"),
        strings(&[
            "search",
            "issues",
            "--owner=o",
            "--author=",
            "--created=a..b",
            "--limit=1000",
            "--json=number,title,body,createdAt,state,url,repository",
        ])
    );
}

#[test]
fn comment_query_for_each_kind() {
    assert_eq!(
        comment_query("org/repo", ItemKind::PullRequest, 42),
        strings(&[
            "api",
            "repos/org/repo/pulls/42/comments",
            "--jq",
            ".[] | {author: {login: .user.login}, body: .body, createdAt: .created_at}",
        ])
    );
    assert_eq!(
        comment_query("org/repo", ItemKind::Issue, 0),
        strings(&[
            "api",
            "repos/org/repo/issues/0/comments",
            "--jq",
            ".[] | {author: {login: .user.login}, body: .body, createdAt: .created_at}",
        ])
    );
    assert_eq!(
        comment_query("a/b", ItemKind::Issue, u32::MAX)[1],
        "repos/a/b/issues/4294967295/comments"
    );
}

#[test]
fn answer_is_cut_at_line_feeds_and_empty_lines_are_left_out() {
    let lines = |text: &str| -> Vec<String> {
        comment_lines(&text.as_bytes().to_vec())
            .into_iter()
            .map(|line| String::from_utf8(line).unwrap())
            .collect()
    };
    assert_eq!(lines(""), Vec::<String>::new());
    assert_eq!(lines("\n"), Vec::<String>::new());
    assert_eq!(lines("\n\n\n"), Vec::<String>::new());
    assert_eq!(lines("one"), strings(&["one"]));
    assert_eq!(lines("one\n"), strings(&["one"]));
    assert_eq!(lines("\none"), strings(&["one"]));
    assert_eq!(lines("one\ntwo\nthree\n"), strings(&["one", "two", "three"]));
    assert_eq!(lines("one\n\n\ntwo"), strings(&["one", "two"]));
    assert_eq!(lines("one\r\ntwo"), strings(&["one\r", "two"]));
    assert_eq!(lines(" \n\t\n"), strings(&[" ", "\t"]));
}

#[test]
fn lines_keep_bytes_that_are_no_text() {
    let output = vec![0xff, 0x00, 10, 10, 0xc3, 10, 0x28];
    assert_eq!(comment_lines(&output), vec![vec![0xff, 0x00], vec![0xc3], vec![0x28]]);
}

#[test]
fn unparsed_lines_are_skipped_and_counted() {
    let parsed = vec![None, Some(comment("a")), None, None, Some(comment("b")), Some(comment("c"))];
    let kept = keep_parsed(parsed);
    assert_eq!(kept.comments, vec![comment("a"), comment("b"), comment("c")]);
    assert_eq!(kept.dropped, 3);

    let nothing = keep_parsed(Vec::new());
    assert!(nothing.comments.is_empty());
    assert_eq!(nothing.dropped, 0);

    let all_bad = keep_parsed(vec![None, None]);
    assert!(all_bad.comments.is_empty());
    assert_eq!(all_bad.dropped, 2);
}

#[test]
fn one_malformed_comment_line_does_not_discard_the_rest() {
    let output = b"{\"author\":{\"login\":\"bob\"},\"body\":\"a\",\"createdAt\":\"t\"}\nnot json\n\n{\"author\":{\"login\":\"bob\"},\"body\":\"b\",\"createdAt\":\"t\"}\n".to_vec();
    let lines = comment_lines(&output);
    assert_eq!(lines.len(), 3);
    let parsed: Vec<Option<Comment>> = lines
        .iter()
        .map(|line| {
            let value: serde_json::Value = serde_json::from_slice(line).ok()?;
            Some(Comment {
                author: value["author"]["login"]
                    .as_str()
                    .map(|login| CommentAuthor { login: login.to_string() }),
                body: value["body"].as_str()?.to_string(),
                created_at: value["createdAt"].as_str()?.to_string(),
            })
        })
        .collect();
    let kept = keep_parsed(parsed);
    assert_eq!(kept.dropped, 1);
    assert_eq!(kept.comments.len(), 2);
    assert_eq!(kept.comments[0].body, "a");
    assert_eq!(kept.comments[1].body, "b");
}
