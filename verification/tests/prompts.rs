use easyhyoka::model::{ActivityItem, Comment, CommentAuthor, ItemKind, Repository};
use easyhyoka::prompt::{build_prompt, INSTRUCTIONS};
use easyhyoka::record::render_record;
use easyhyoka::stats::{aggregate, ActivityStatistics};

fn item(kind: ItemKind, number: u32, state: &str, repository: &str) -> ActivityItem {
    ActivityItem {
        kind,
        number,
        title: format!("title {}", number),
        body: Some(format!("body {}", number)),
        created_at: "2025-01-10T00:00:00Z".to_string(),
        state: state.to_string(),
        url: format!("https://github.com/{}/pull/{}", repository, number),
        repository: Repository { name_with_owner: repository.to_string() },
        comments: Vec::new(),
    }
}

fn instructions() -> String {
    let mut text = String::new();
    text.push_str("以上のJSONLデータを分析して、エンジニアの評価期間中の実績を最大限に評価するサマリーを日本語で作成してください。\n\n");
    text.push_str("【分析の観点】\n");
    text.push_str("- PRのタイトルやdescriptionから、関連するPRをグループ化し、大きなプロジェクトや機能開発として認識\n");
    text.push_str("- descriptionの詳細度やコメントの量から、技術的難易度やプロジェクトの重要性を推測\n");
    text.push_str("- 小さなPRでも、バグ修正、リファクタリング、ドキュメント改善など、プロダクトの品質向上への貢献として評価\n");
    text.push_str("- リポジトリごとの活動パターンから、どのプロジェクトでどのような役割を担っていたかを推測\n\n");
    text.push_str("【評価サマリーに含める項目】\n");
    text.push_str("1. エグゼクティブサマリー（最も印象的な成果を3-5点で箇条書き）\n");
    text.push_str("2. プロジェクト別の貢献内容\n");
    text.push_str("   - 各リポジトリでの主要な取り組みと成果\n");
    text.push_str("   - 関連するPRをまとめて一つの成果として表現\n");
    text.push_str("3. 技術的なリーダーシップ\n");
    text.push_str("   - 新技術の導入、アーキテクチャの改善\n");
    text.push_str("   - コードレビューでの貢献（コメントから読み取れる場合）\n");
    text.push_str("4. ビジネスインパクト\n");
    text.push_str("   - 機能開発によるユーザー価値の向上\n");
    text.push_str("   - パフォーマンス改善や品質向上の取り組み\n");
    text.push_str("5. チームへの貢献\n");
    text.push_str("   - コラボレーションの姿勢\n");
    text.push_str("   - ドキュメント整備やツール改善\n");
    text.push_str("6. 継続的な成長と改善\n");
    text.push_str("   - 期間を通じての成長や学習の形跡\n");
    text.push_str("   - 新しい領域への挑戦\n");
    text.push_str("7. 総合評価と今後への期待\n\n");
    text.push_str("【重要】成果を最大限にアピールし、エンジニアの価値を適切に表現してください。\n");
    text
}

fn expected_prompt(
    author: &str,
    since: &str,
    until: &str,
    stats: &ActivityStatistics,
    prs: &[ActivityItem],
    issues: &[ActivityItem],
) -> String {
    let mut prompt = format!(
        "以下は{}の{}から{}までのGitHub活動データです。\n\n",
        author, since, until
    );
    prompt.push_str("## 統計サマリー\n");
    prompt.push_str(&format!(
        "- Pull Request総数: {}件（マージ済み: {}件、オープン: {}件、クローズ: {}件）\n",
        stats.pr_total, stats.pr_merged, stats.pr_open, stats.pr_closed
    ));
    prompt.push_str(&format!(
        "- Issue総数: {}件（オープン: {}件、クローズ: {}件）\n\n",
        stats.issue_total, stats.issue_open, stats.issue_closed
    ));
    prompt.push_str("## Pull Requestデータ（JSONL形式）\n```\n");
    for pr in prs {
        prompt.push_str(&format!("{}\n", render_record(pr).unwrap()));
    }
    prompt.push_str("```\n\n");
    prompt.push_str("## Issueデータ（JSONL形式）\n```\n");
    for issue in issues {
        prompt.push_str(&format!("{}\n", render_record(issue).unwrap()));
    }
    prompt.push_str("```\n\n");
    prompt.push_str(&instructions());
    prompt
}

fn block_lines<'a>(prompt: &'a str, heading: &str) -> Vec<&'a str> {
    let start = prompt.find(heading).unwrap() + heading.len();
    let rest = &prompt[start..];
    let end = rest.find("```\n\n").unwrap();
    rest[..end].lines().collect()
}

#[test]
fn instructions_are_the_fixed_template() {
    assert_eq!(INSTRUCTIONS, instructions());
}

#[test]
fn end_to_end_one_merged_pull_request() {
    let mut pr = item(ItemKind::PullRequest, 1, "merged", "org/repo");
    pr.title = "First".to_string();
    pr.body = None;
    pr.url = "https://github.com/org/repo/pull/1".to_string();
    let prs = vec![pr];
    let issues: Vec<ActivityItem> = Vec::new();
    let stats = aggregate(&prs, &issues);
    assert_eq!(stats.pr_total, 1);
    assert_eq!(stats.pr_merged, 1);
    assert_eq!(stats.pr_open, 0);
    assert_eq!(stats.pr_closed, 0);
    assert_eq!(stats.issue_total, 0);
    assert_eq!(stats.issue_open, 0);
    assert_eq!(stats.issue_closed, 0);
    assert_eq!(stats.repositories.len(), 1);
    assert_eq!(stats.repositories[0].name, "org/repo");
    assert_eq!(stats.repositories[0].count, 1);

    let prompt = build_prompt("alice", "2025-01-01", "2025-01-31", &stats, &prs, &issues).unwrap();
    let mut expected = String::new();
    expected.push_str("以下はaliceの2025-01-01から2025-01-31までのGitHub活動データです。\n\n");
    expected.push_str("## 統計サマリー\n");
    expected.push_str("- Pull Request総数: 1件（マージ済み: 1件、オープン: 0件、クローズ: 0件）\n");
    expected.push_str("- Issue総数: 0件（オープン: 0件、クローズ: 0件）\n\n");
    expected.push_str("## Pull Requestデータ（JSONL形式）\n```\n");
    expected.push_str("{\"comments\":[],\"created_at\":\"2025-01-10T00:00:00Z\",\"description\":\"\",\"repository\":\"org/repo\",\"status\":\"merged\",\"title\":\"First\",\"url\":\"https://github.com/org/repo/pull/1\"}\n");
    expected.push_str("```\n\n");
    expected.push_str("## Issueデータ（JSONL形式）\n```\n");
    expected.push_str("```\n\n");
    expected.push_str(&instructions());
    assert_eq!(prompt, expected);

    assert_eq!(block_lines(&prompt, "## Pull Requestデータ（JSONL形式）\n```\n").len(), 1);
    assert!(prompt.contains("## Issueデータ（JSONL形式）\n```\n```\n\n"));
    assert_eq!(block_lines(&prompt, "## Issueデータ（JSONL形式）\n```\n").len(), 0);
}

#[test]
fn every_item_gets_a_line_beyond_the_comment_sample() {
    let mut prs = Vec::new();
    for n in 1..=12u32 {
        let mut pr = item(ItemKind::PullRequest, n, "open", "org/repo");
        if n <= 5 {
            pr.comments.push(Comment {
                author: Some(CommentAuthor { login: "bob".to_string() }),
                body: format!("comment\non {}", n),
                created_at: "2025-01-11T00:00:00Z".to_string(),
            });
        }
        prs.push(pr);
    }
    let issues = vec![
        item(ItemKind::Issue, 20, "open", "org/other"),
        item(ItemKind::Issue, 21, "closed", "org/other"),
    ];
    let stats = aggregate(&prs, &issues);
    let prompt = build_prompt("bob", "2025-01-01", "2025-06-30", &stats, &prs, &issues).unwrap();
    assert_eq!(prompt, expected_prompt("bob", "2025-01-01", "2025-06-30", &stats, &prs, &issues));
    let pr_lines = block_lines(&prompt, "## Pull Requestデータ（JSONL形式）\n```\n");
    assert_eq!(pr_lines.len(), 12);
    for (line, pr) in pr_lines.iter().zip(prs.iter()) {
        assert_eq!(*line, render_record(pr).unwrap());
    }
    assert_eq!(block_lines(&prompt, "## Issueデータ（JSONL形式）\n```\n").len(), 2);
}

#[test]
fn statistics_are_written_as_given() {
    let stats = ActivityStatistics {
        pr_total: 1234,
        pr_merged: 1000,
        pr_open: 230,
        pr_closed: 4,
        issue_total: 10,
        issue_open: 9,
        issue_closed: 1,
        repositories: Vec::new(),
    };
    let prompt = build_prompt("a", "s", "u", &stats, &Vec::new(), &Vec::new()).unwrap();
    assert_eq!(prompt, expected_prompt("a", "s", "u", &stats, &[], &[]));
    assert!(prompt.contains(
        "- Pull Request総数: 1234件（マージ済み: 1000件、オープン: 230件、クローズ: 4件）\n"
    ));
    assert!(prompt.contains("- Issue総数: 10件（オープン: 9件、クローズ: 1件）\n\n"));
    assert!(prompt.starts_with("以下はaのsからuまでのGitHub活動データです。\n\n## 統計サマリー\n"));
    assert!(prompt.ends_with(INSTRUCTIONS));
}

#[test]
fn large_counts_are_written_in_full() {
    let stats = ActivityStatistics {
        pr_total: usize::MAX,
        pr_merged: 0,
        pr_open: 10,
        pr_closed: 909,
        issue_total: 1000,
        issue_open: 99,
        issue_closed: 100,
        repositories: Vec::new(),
    };
    let prompt = build_prompt("a", "s", "u", &stats, &Vec::new(), &Vec::new()).unwrap();
    assert_eq!(prompt, expected_prompt("a", "s", "u", &stats, &[], &[]));
}
