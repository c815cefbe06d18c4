use easyhyoka::model::{ActivityItem, Comment, CommentAuthor, ItemKind, Repository};
use easyhyoka::record::{parse_record_line, render_record, LineComment};
use serde_json::Value;

fn comment(author: Option<&str>, body: &str, created_at: &str) -> Comment {
    Comment {
        author: author.map(|login| CommentAuthor { login: login.to_string() }),
        body: body.to_string(),
        created_at: created_at.to_string(),
    }
}

fn sample(title: &str, body: Option<&str>, comments: Vec<Comment>) -> ActivityItem {
    ActivityItem {
        kind: ItemKind::PullRequest,
        number: 7,
        title: title.to_string(),
        body: body.map(|b| b.to_string()),
        created_at: "2025-01-15T10:00:00Z".to_string(),
        state: "merged".to_string(),
        url: "https://github.com/org/repo/pull/7".to_string(),
        repository: Repository { name_with_owner: "org/repo".to_string() },
        comments,
    }
}

/// The line as a JSON object that is built key by key and then serialised.
fn line_by_value(item: &ActivityItem) -> String {
    let mut comments = Vec::new();
    for c in &item.comments {
        let mut entry = serde_json::Map::new();
        let user = match &c.author {
            Some(author) => author.login.clone(),
            None => "Unknown".to_string(),
        };
        entry.insert("user".to_string(), Value::String(user));
        entry.insert("comment_body".to_string(), Value::String(c.body.clone()));
        entry.insert("created_at".to_string(), Value::String(c.created_at.clone()));
        comments.push(Value::Object(entry));
    }
    let mut record = serde_json::Map::new();
    record.insert("url".to_string(), Value::String(item.url.clone()));
    record.insert("title".to_string(), Value::String(item.title.clone()));
    record.insert(
        "description".to_string(),
        Value::String(item.body.clone().unwrap_or_default()),
    );
    record.insert("status".to_string(), Value::String(item.state.clone()));
    record.insert(
        "repository".to_string(),
        Value::String(item.repository.name_with_owner.clone()),
    );
    record.insert("created_at".to_string(), Value::String(item.created_at.clone()));
    record.insert("comments".to_string(), Value::Array(comments));
    serde_json::to_string(&Value::Object(record)).unwrap()
}

#[test]
fn line_of_an_item_without_comments() {
    let item = sample("Add feature", Some("Details"), Vec::new());
    assert_eq!(
        render_record(&item).unwrap(),
        "{\"comments\":[],\"created_at\":\"2025-01-15T10:00:00Z\",\"description\":\"Details\",\"repository\":\"org/repo\",\"status\":\"merged\",\"title\":\"Add feature\",\"url\":\"https://github.com/org/repo/pull/7\"}"
    );
}

#[test]
fn absent_body_is_an_empty_description() {
    let item = sample("t", None, Vec::new());
    let line = render_record(&item).unwrap();
    assert!(line.contains("\"description\":\"\","));
    let record = parse_record_line(&line).unwrap();
    assert_eq!(record.description, "");
}

#[test]
fn line_with_comments_names_unknown_authors() {
    let item = sample(
        "t",
        Some("b"),
        vec![
            comment(Some("bob"), "looks fine", "2025-01-16T00:00:00Z"),
            comment(None, "ghost", "2025-01-17T00:00:00Z"),
        ],
    );
    assert_eq!(
        render_record(&item).unwrap(),
        "{\"comments\":[{\"comment_body\":\"looks fine\",\"created_at\":\"2025-01-16T00:00:00Z\",\"user\":\"bob\"},{\"comment_body\":\"ghost\",\"created_at\":\"2025-01-17T00:00:00Z\",\"user\":\"Unknown\"}],\"created_at\":\"2025-01-15T10:00:00Z\",\"description\":\"b\",\"repository\":\"org/repo\",\"status\":\"merged\",\"title\":\"t\",\"url\":\"https://github.com/org/repo/pull/7\"}"
    );
}

#[test]
fn special_characters_are_escaped() {
    let item = sample("say \"hi\" \\ now\n\ttab\r\u{8}\u{c}\u{1}\u{1f}\u{7f}/é日本", None, Vec::new());
    let line = render_record(&item).unwrap();
    assert!(line.contains(
        "\"title\":\"say \\\"hi\\\" \\\\ now\\n\\ttab\\r\\b\\f\\u0001\\u001f\u{7f}/é日本\""
    ));
    assert!(!line.contains('\n'));
}

#[test]
fn line_equals_the_serialised_object() {
    let items = vec![
        sample("plain", Some("body"), Vec::new()),
        sample("", None, vec![comment(None, "", "")]),
        sample(
            "quote \" and \\ and \u{0} and \u{1b}",
            Some("multi\nline\r\nbody\twith tabs"),
            vec![
                comment(Some("a\"b"), "x\ny", "2025-01-01T00:00:00Z"),
                comment(Some("日本語"), "{\"json\":[1,2]}", "t"),
                comment(None, "],\"created_at\":\"", "}"),
            ],
        ),
    ];
    for item in &items {
        assert_eq!(render_record(item).unwrap(), line_by_value(item));
    }
}

#[test]
fn every_low_character_is_written_as_the_serialiser_writes_it() {
    for code in 0u32..0x100 {
        let c = char::from_u32(code).unwrap();
        let text = format!("a{}b", c);
        let item = sample(&text, Some(&text), vec![comment(Some(&text), &text, &text)]);
        let line = render_record(&item).unwrap();
        assert_eq!(line, line_by_value(&item), "character {:#x}", code);
        let record = parse_record_line(&line).unwrap();
        assert_eq!(record.title, text, "character {:#x}", code);
        assert_eq!(record.comments[0].user, text, "character {:#x}", code);
    }
}

#[test]
fn round_trip_recovers_every_field() {
    let item = sample(
        "Fix \"bug\" \\ 日本語\u{1}",
        Some("line one\nline two\ttabbed"),
        vec![
            comment(Some("bob"), "looks fine\r\n", "2025-01-16T00:00:00Z"),
            comment(None, "who?", "2025-01-17T00:00:00Z"),
            comment(Some("carol"), "", "2025-01-18T00:00:00Z"),
        ],
    );
    let line = render_record(&item).unwrap();
    let record = parse_record_line(&line).unwrap();
    assert_eq!(record.url, item.url);
    assert_eq!(record.title, item.title);
    assert_eq!(record.description, "line one\nline two\ttabbed");
    assert_eq!(record.status, item.state);
    assert_eq!(record.repository, item.repository.name_with_owner);
    assert_eq!(record.created_at, item.created_at);
    assert_eq!(record.comments.len(), item.comments.len());
    assert_eq!(
        record.comments,
        vec![
            LineComment {
                user: "bob".to_string(),
                comment_body: "looks fine\r\n".to_string(),
                created_at: "2025-01-16T00:00:00Z".to_string(),
            },
            LineComment {
                user: "Unknown".to_string(),
                comment_body: "who?".to_string(),
                created_at: "2025-01-17T00:00:00Z".to_string(),
            },
            LineComment {
                user: "carol".to_string(),
                comment_body: "".to_string(),
                created_at: "2025-01-18T00:00:00Z".to_string(),
            },
        ]
    );
}

#[test]
fn round_trip_through_a_json_parser() {
    let item = sample(
        "Fix \"bug\" \\ 日本語\u{1}",
        None,
        vec![comment(Some("bob"), "a\nb", "c"), comment(None, "d", "e")],
    );
    let line = render_record(&item).unwrap();
    let value: Value = serde_json::from_str(&line).unwrap();
    assert_eq!(value["url"].as_str().unwrap(), item.url);
    assert_eq!(value["title"].as_str().unwrap(), item.title);
    assert_eq!(value["description"].as_str().unwrap(), "");
    assert_eq!(value["status"].as_str().unwrap(), item.state);
    assert_eq!(value["repository"].as_str().unwrap(), "org/repo");
    assert_eq!(value["created_at"].as_str().unwrap(), item.created_at);
    let comments = value["comments"].as_array().unwrap();
    assert_eq!(comments.len(), 2);
    assert_eq!(comments[0]["user"].as_str().unwrap(), "bob");
    assert_eq!(comments[0]["comment_body"].as_str().unwrap(), "a\nb");
    assert_eq!(comments[1]["user"].as_str().unwrap(), "Unknown");
}

#[test]
fn text_that_is_no_record_line_is_refused() {
    let line = render_record(&sample("t", Some("b"), vec![comment(None, "c", "d")])).unwrap();
    assert!(parse_record_line(&line).is_some());
    assert!(parse_record_line("").is_none());
    assert!(parse_record_line("{}").is_none());
    assert!(parse_record_line(&line[..line.len() - 1]).is_none());
    assert!(parse_record_line(&format!("{} ", line)).is_none());
    assert!(parse_record_line(&format!("{}\n", line)).is_none());
    assert!(parse_record_line(&line.replace("\"status\"", "\"state\"")).is_none());
    assert!(parse_record_line(&line.replace("[{", "[,{")).is_none());
    assert!(parse_record_line(&line.replace("}]", "},]")).is_none());
    assert!(parse_record_line(&line.replace("\"t\"", "\"\\/\"")).is_none());
    assert!(parse_record_line(&line.replace("\"t\"", "\"\\u000A\"")).is_none());
    assert!(parse_record_line(&line.replace("\"t\"", "\"\\u000a\"")).is_none());
    assert!(parse_record_line(&line.replace("\"t\"", "\"\\u0041\"")).is_none());
    assert!(parse_record_line(&line.replace("\"t\"", "\"\u{1}\"")).is_none());
    assert!(parse_record_line(&line.replace("\"t\"", "\"\\u0001\"")).is_some());
    assert!(parse_record_line(&line.replace("\"t\"", "\"unterminated")).is_none());
}
