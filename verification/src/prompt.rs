//! The prompt: a header, the statistics, one block of record lines for the
//! pull requests and one for the issues, and the fixed instructions.

use crate::error::PipelineError;
use crate::model::{ActivityItem, ActivityItemView};
use crate::json::no_control;
use crate::record::{lemma_record_no_control, line_record_of, record_text, render_record};
use crate::stats::{ActivityStatistics, ActivityStatisticsView};
use crate::text::{decimal, push_decimal};
use vstd::prelude::*;

verus! {

/// The heading of the block of pull requests, with the opening fence.
pub const PULL_REQUEST_HEADING: &'static str = "## Pull Requestデータ（JSONL形式）\n```\n";

/// The heading of the block of issues, with the opening fence.
pub const ISSUE_HEADING: &'static str = "## Issueデータ（JSONL形式）\n```\n";

/// The closing fence of a block and the empty line behind it.
pub const BLOCK_END: &'static str = "```\n\n";

/// The instructions that end every prompt. They do not depend on the data.
pub const INSTRUCTIONS: &'static str =
    "以上のJSONLデータを分析して、エンジニアの評価期間中の実績を最大限に評価するサマリーを日本語で作成してください。\n\n\
【分析の観点】\n\
- PRのタイトルやdescriptionから、関連するPRをグループ化し、大きなプロジェクトや機能開発として認識\n\
- descriptionの詳細度やコメントの量から、技術的難易度やプロジェクトの重要性を推測\n\
- 小さなPRでも、バグ修正、リファクタリング、ドキュメント改善など、プロダクトの品質向上への貢献として評価\n\
- リポジトリごとの活動パターンから、どのプロジェクトでどのような役割を担っていたかを推測\n\n\
【評価サマリーに含める項目】\n\
1. エグゼクティブサマリー（最も印象的な成果を3-5点で箇条書き）\n\
2. プロジェクト別の貢献内容\n\
\x20  - 各リポジトリでの主要な取り組みと成果\n\
\x20  - 関連するPRをまとめて一つの成果として表現\n\
3. 技術的なリーダーシップ\n\
\x20  - 新技術の導入、アーキテクチャの改善\n\
\x20  - コードレビューでの貢献（コメントから読み取れる場合）\n\
4. ビジネスインパクト\n\
\x20  - 機能開発によるユーザー価値の向上\n\
\x20  - パフォーマンス改善や品質向上の取り組み\n\
5. チームへの貢献\n\
\x20  - コラボレーションの姿勢\n\
\x20  - ドキュメント整備やツール改善\n\
6. 継続的な成長と改善\n\
\x20  - 期間を通じての成長や学習の形跡\n\
\x20  - 新しい領域への挑戦\n\
7. 総合評価と今後への期待\n\n\
【重要】成果を最大限にアピールし、エンジニアの価値を適切に表現してください。\n";

/// The header: whose activity the prompt holds, and of which window.
pub open spec fn header_text(author: Seq<char>, since: Seq<char>, until: Seq<char>) -> Seq<char> {
    "以下は"@ + author + "の"@ + since + "から"@ + until + "までのGitHub活動データです。\n\n"@
}

/// The statistics block: the counts of the pull requests and of the issues.
pub open spec fn statistics_text(stats: ActivityStatisticsView) -> Seq<char> {
    "## 統計サマリー\n- Pull Request総数: "@ + decimal(stats.pr_total) + "件（マージ済み: "@ + decimal(
        stats.pr_merged,
    ) + "件、オープン: "@ + decimal(stats.pr_open) + "件、クローズ: "@ + decimal(stats.pr_closed)
        + "件）\n- Issue総数: "@ + decimal(stats.issue_total) + "件（オープン: "@ + decimal(
        stats.issue_open,
    ) + "件、クローズ: "@ + decimal(stats.issue_closed) + "件）\n\n"@
}

/// The record lines of the items: one line for every item, in the items'
/// order, each ended by a line feed.
pub open spec fn lines_text(items: Seq<ActivityItemView>) -> Seq<char>
    decreases items.len(),
{
    if items.len() == 0 {
        Seq::empty()
    } else {
        record_text(line_record_of(items[0])) + seq!['\n'] + lines_text(items.skip(1))
    }
}

/// A block: its heading, the lines of its items, and the closing fence.
pub open spec fn block_text(heading: Seq<char>, items: Seq<ActivityItemView>) -> Seq<char> {
    heading + lines_text(items) + BLOCK_END@
}

/// The whole prompt.
pub open spec fn prompt_text(
    author: Seq<char>,
    since: Seq<char>,
    until: Seq<char>,
    stats: ActivityStatisticsView,
    prs: Seq<ActivityItemView>,
    issues: Seq<ActivityItemView>,
) -> Seq<char> {
    header_text(author, since, until) + statistics_text(stats) + block_text(
        PULL_REQUEST_HEADING@,
        prs,
    ) + block_text(ISSUE_HEADING@, issues) + INSTRUCTIONS@
}

/// The test "this character is the line feed".
pub open spec fn is_line_feed() -> spec_fn(char) -> bool {
    |c: char| c == '\n'
}

/// How many line feeds the text holds.
pub open spec fn line_feeds(text: Seq<char>) -> nat {
    text.filter(is_line_feed()).len()
}

proof fn lemma_no_control_no_line_feed(text: Seq<char>)
    requires
        no_control(text),
    ensures
        line_feeds(text) == 0,
    decreases text.len(),
{
    if text.len() == 0 {
        reveal(Seq::filter);
    } else {
        let front = text.drop_last();
        assert forall|i: int| 0 <= i < front.len() implies (#[trigger] front[i]) as u32
            >= 0x20 by {
            assert(front[i] == text[i]);
        }
        lemma_no_control_no_line_feed(front);
        assert(front.push(text.last()) =~= text);
        front.lemma_filter_len_push(is_line_feed(), text.last());
        assert(text[text.len() - 1] as u32 >= 0x20);
    }
}

/// One line for every item: the lines of a block hold exactly as many line
/// feeds as there are items, whatever the items hold and whether or not
/// comments were sampled for them. Without items there is no text at all.
pub proof fn lemma_one_line_per_item(items: Seq<ActivityItemView>)
    ensures
        line_feeds(lines_text(items)) == items.len(),
        items.len() == 0 ==> lines_text(items).len() == 0,
    decreases items.len(),
{
    if items.len() == 0 {
        reveal(Seq::filter);
    } else {
        let line = record_text(line_record_of(items[0]));
        let rest = lines_text(items.skip(1));
        lemma_one_line_per_item(items.skip(1));
        lemma_record_no_control(line_record_of(items[0]));
        lemma_no_control_no_line_feed(line);
        line.lemma_filter_len_push(is_line_feed(), '\n');
        assert(line + seq!['\n'] =~= line.push('\n'));
        Seq::filter_distributes_over_add(line + seq!['\n'], rest, is_line_feed());
    }
}

fn header(author: &str, since: &str, until: &str) -> (text: String)
    ensures
        text@ == header_text(author@, since@, until@),
{
    let mut text = String::from_str("以下は");
    text.append(author);
    text.append("の");
    text.append(since);
    text.append("から");
    text.append(until);
    text.append("までのGitHub活動データです。\n\n");
    text
}

fn statistics_block(stats: &ActivityStatistics) -> (text: String)
    ensures
        text@ == statistics_text(stats@),
{
    let mut text = String::from_str("## 統計サマリー\n- Pull Request総数: ");
    push_decimal(&mut text, stats.pr_total as u64);
    text.append("件（マージ済み: ");
    push_decimal(&mut text, stats.pr_merged as u64);
    text.append("件、オープン: ");
    push_decimal(&mut text, stats.pr_open as u64);
    text.append("件、クローズ: ");
    push_decimal(&mut text, stats.pr_closed as u64);
    text.append("件）\n- Issue総数: ");
    push_decimal(&mut text, stats.issue_total as u64);
    text.append("件（オープン: ");
    push_decimal(&mut text, stats.issue_open as u64);
    text.append("件、クローズ: ");
    push_decimal(&mut text, stats.issue_closed as u64);
    text.append("件）\n\n");
    text
}

fn block(heading: &str, items: &Vec<ActivityItem>) -> (r: Result<String, PipelineError>)
    ensures
        r is Ok,
        r matches Ok(text) ==> text@ == block_text(heading@, items.deep_view()),
{
    let ghost views = items.deep_view();
    let mut text = String::from_str(heading);
    let mut i: usize = 0;
    proof {
        assert(views.skip(0) =~= views);
    }
    while i < items.len()
        invariant
            i <= items.len(),
            views == items.deep_view(),
            text@ + lines_text(views.skip(i as int)) == heading@ + lines_text(views),
        decreases items.len() - i,
    {
        let ghost before = text@;
        let line = render_record(&items[i])?;
        text.append(line.as_str());
        text.push('\n');
        proof {
            let rest = views.skip(i as int);
            assert(rest[0] == items@[i as int]@);
            assert(rest.skip(1) =~= views.skip(i + 1));
            assert(text@ + lines_text(views.skip(i + 1)) =~= before + lines_text(rest));
        }
        i = i + 1;
    }
    proof {
        assert(text@ + lines_text(views.skip(items.len() as int)) =~= text@);
    }
    text.append(BLOCK_END);
    Ok(text)
}

/// Builds the prompt for one run, always in the same order: the header that
/// names the author and the window, the statistics as they are given, a line
/// for every pull request, a line for every issue, and the fixed instructions.
/// The headings of both blocks are written also where a block has no line.
pub fn build_prompt(
    author: &str,
    since: &str,
    until: &str,
    stats: &ActivityStatistics,
    prs: &Vec<ActivityItem>,
    issues: &Vec<ActivityItem>,
) -> (r: Result<String, PipelineError>)
    ensures
        r is Ok,
        r matches Ok(text) ==> text@ == prompt_text(
            author@,
            since@,
            until@,
            stats@,
            prs.deep_view(),
            issues.deep_view(),
        ),
{
    let mut text = header(author, since, until);
    let counts = statistics_block(stats);
    text.append(counts.as_str());
    let pull_requests = block(PULL_REQUEST_HEADING, prs)?;
    text.append(pull_requests.as_str());
    let issue_block = block(ISSUE_HEADING, issues)?;
    text.append(issue_block.as_str());
    text.append(INSTRUCTIONS);
    Ok(text)
}

} // verus!
