//! What is asked of the activity source, and how the answer to a comment
//! query is framed: the arguments of both queries, the lines of a comment
//! answer, and the comments that were read from them.

use crate::model::{Comment, CommentView, ItemKind};
use crate::text::{decimal, push_decimal};
use vstd::prelude::*;

verus! {

/// How many activity records a query asks for at most. A result of exactly
/// this size may have been cut off.
pub const RESULT_LIMIT: usize = 1000;

/// The fields that an activity query is restricted to.
pub const ACTIVITY_FIELDS: &'static str = "number,title,body,createdAt,state,url,repository";

/// The filter that shapes each comment of an answer into one line.
pub const COMMENT_FILTER: &'static str =
    ".[] | {author: {login: .user.login}, body: .body, createdAt: .created_at}";

/// The byte that ends a line.
pub const LINE_FEED: u8 = 10;

/// What a search for items of the kind is called.
pub open spec fn search_subject(kind: ItemKind) -> Seq<char> {
    match kind {
        ItemKind::PullRequest => "prs"@,
        ItemKind::Issue => "issues"@,
    }
}

/// Under which name the items of the kind stand in a repository.
pub open spec fn collection_name(kind: ItemKind) -> Seq<char> {
    match kind {
        ItemKind::PullRequest => "pulls"@,
        ItemKind::Issue => "issues"@,
    }
}

/// The arguments of the activity query for one kind: the items of `owner`
/// that `author` created from `since` to `until`, both days included, at
/// most `RESULT_LIMIT` of them, each with the fields of `ACTIVITY_FIELDS`.
pub open spec fn activity_query_text(
    kind: ItemKind,
    owner: Seq<char>,
    author: Seq<char>,
    since: Seq<char>,
    until: Seq<char>,
) -> Seq<Seq<char>> {
    seq![
        "search"@,
        search_subject(kind),
        "--owner="@ + owner,
        "--author="@ + author,
        "--created="@ + since + ".."@ + until,
        "--limit="@ + decimal(RESULT_LIMIT as nat),
        "--json="@ + ACTIVITY_FIELDS@,
    ]
}

/// The arguments of the comment query for one item.
pub open spec fn comment_query_text(repository: Seq<char>, kind: ItemKind, number: u32) -> Seq<
    Seq<char>,
> {
    seq![
        "api"@,
        "repos/"@ + repository + "/"@ + collection_name(kind) + "/"@ + decimal(number as nat)
            + "/comments"@,
        "--jq"@,
        COMMENT_FILTER@,
    ]
}

/// The pieces that the line feeds cut the bytes into, empty pieces too: one
/// more piece than there are line feeds.
pub open spec fn segments(bytes: Seq<u8>) -> Seq<Seq<u8>>
    decreases bytes.len(),
{
    if bytes.len() == 0 {
        seq![Seq::empty()]
    } else {
        let before = segments(bytes.drop_last());
        if bytes.last() == LINE_FEED {
            before.push(Seq::empty())
        } else {
            before.drop_last().push(before.last().push(bytes.last()))
        }
    }
}

/// The test "this line is not empty".
pub open spec fn is_filled() -> spec_fn(Seq<u8>) -> bool {
    |line: Seq<u8>| line.len() > 0
}

/// The lines of a comment answer: the pieces between line feeds that are not
/// empty, in order.
pub open spec fn comment_lines_of(output: Seq<u8>) -> Seq<Seq<u8>> {
    segments(output).filter(is_filled())
}

/// The pieces put together again, with a line feed between each two.
pub open spec fn joined(pieces: Seq<Seq<u8>>) -> Seq<u8>
    decreases pieces.len(),
{
    if pieces.len() == 0 {
        Seq::empty()
    } else if pieces.len() == 1 {
        pieces[0]
    } else {
        joined(pieces.drop_last()) + seq![LINE_FEED] + pieces.last()
    }
}

/// The comments that were read: of each line the comment it parsed to, lines
/// that did not parse left out, the order kept.
pub open spec fn kept_comments(parsed: Seq<Option<CommentView>>) -> Seq<CommentView> {
    parsed.filter_map(parsed_comment())
}

/// What a line contributes: the comment it parsed to, if it parsed.
pub open spec fn parsed_comment() -> spec_fn(Option<CommentView>) -> Option<CommentView> {
    |entry: Option<CommentView>| entry
}

/// Cutting loses nothing and cuts at every line feed: there is at least one
/// piece, no piece holds a line feed, and the pieces joined by line feeds are
/// the bytes again.
pub proof fn lemma_segments(bytes: Seq<u8>)
    ensures
        segments(bytes).len() >= 1,
        forall|i: int, j: int|
            0 <= i < segments(bytes).len() && 0 <= j < segments(bytes)[i].len() ==> segments(
                bytes,
            )[i][j] != LINE_FEED,
        joined(segments(bytes)) == bytes,
    decreases bytes.len(),
{
    if bytes.len() == 0 {
        assert(joined(segments(bytes)) =~= bytes);
    } else {
        let front = bytes.drop_last();
        let before = segments(front);
        let after = segments(bytes);
        lemma_segments(front);
        if bytes.last() == LINE_FEED {
            assert(after.drop_last() =~= before);
            assert(after.len() >= 2);
            assert(after.last() =~= Seq::<u8>::empty());
            assert(joined(after) == joined(before) + seq![LINE_FEED] + after.last());
            assert(front + seq![LINE_FEED] + Seq::<u8>::empty() =~= bytes);
        } else {
            let grown = before.last().push(bytes.last());
            assert(after.last() == grown);
            if before.len() == 1 {
                assert(joined(before) == before[0]);
                assert(after.len() == 1);
                assert(joined(after) == grown);
                assert(grown =~= bytes);
            } else {
                assert(after.drop_last() =~= before.drop_last());
                assert(joined(before) == joined(before.drop_last()) + seq![LINE_FEED]
                    + before.last());
                assert(joined(after) == joined(before.drop_last()) + seq![LINE_FEED] + grown);
                assert(joined(before.drop_last()) + seq![LINE_FEED] + grown =~= (joined(
                    before.drop_last(),
                ) + seq![LINE_FEED] + before.last()).push(bytes.last()));
                assert(front.push(bytes.last()) =~= bytes);
            }
            assert forall|i: int, j: int|
                0 <= i < after.len() && 0 <= j < after[i].len() implies after[i][j]
                != LINE_FEED by {
                if i < after.len() - 1 {
                    assert(after[i] == before[i]);
                } else if j < before.last().len() {
                    assert(after[i][j] == before[before.len() - 1][j]);
                }
            }
        }
    }
}

fn subject_of(kind: ItemKind) -> (text: String)
    ensures
        text@ == search_subject(kind),
{
    match kind {
        ItemKind::PullRequest => String::from_str("prs"),
        ItemKind::Issue => String::from_str("issues"),
    }
}

/// Builds the arguments of the activity query for one kind.
pub fn activity_query(kind: ItemKind, owner: &str, author: &str, since: &str, until: &str) -> (args:
    Vec<String>)
    ensures
        args.deep_view() == activity_query_text(kind, owner@, author@, since@, until@),
{
    let mut args: Vec<String> = Vec::new();
    args.push(String::from_str("search"));
    args.push(subject_of(kind));
    let mut owner_filter = String::from_str("--owner=");
    owner_filter.append(owner);
    args.push(owner_filter);
    let mut author_filter = String::from_str("--author=");
    author_filter.append(author);
    args.push(author_filter);
    let mut created_filter = String::from_str("--created=");
    created_filter.append(since);
    created_filter.append("..");
    created_filter.append(until);
    args.push(created_filter);
    let mut limit = String::from_str("--limit=");
    push_decimal(&mut limit, RESULT_LIMIT as u64);
    args.push(limit);
    let mut fields = String::from_str("--json=");
    fields.append(ACTIVITY_FIELDS);
    args.push(fields);
    assert(args.deep_view() =~= activity_query_text(kind, owner@, author@, since@, until@));
    args
}

/// Builds the arguments of the comment query for one item.
pub fn comment_query(repository: &str, kind: ItemKind, number: u32) -> (args: Vec<String>)
    ensures
        args.deep_view() == comment_query_text(repository@, kind, number),
{
    let mut args: Vec<String> = Vec::new();
    args.push(String::from_str("api"));
    let mut path = String::from_str("repos/");
    path.append(repository);
    path.append("/");
    match kind {
        ItemKind::PullRequest => path.append("pulls"),
        ItemKind::Issue => path.append("issues"),
    }
    path.append("/");
    push_decimal(&mut path, number as u64);
    path.append("/comments");
    args.push(path);
    args.push(String::from_str("--jq"));
    args.push(String::from_str(COMMENT_FILTER));
    assert(args.deep_view() =~= comment_query_text(repository@, kind, number));
    args
}

/// Whether a result of `count` records may have been cut off: it holds
/// exactly as many records as a query asks for at most.
pub fn truncation_suspected(count: usize) -> (r: bool)
    ensures
        r == (count == RESULT_LIMIT),
{
    count == RESULT_LIMIT
}

/// Cuts the answer to a comment query into its lines. Empty lines are left
/// out; every other line is handed on, whether or not it will parse.
pub fn comment_lines(output: &Vec<u8>) -> (lines: Vec<Vec<u8>>)
    ensures
        lines.deep_view() == comment_lines_of(output@),
{
    let mut lines: Vec<Vec<u8>> = Vec::new();
    let mut current: Vec<u8> = Vec::new();
    let ghost mut complete: Seq<Seq<u8>> = Seq::empty();
    let mut i: usize = 0;
    proof {
        assert(output@.take(0) =~= Seq::<u8>::empty());
        assert(segments(output@.take(0)) =~= complete.push(current@));
        reveal(Seq::filter);
        assert(lines.deep_view() =~= complete.filter(is_filled()));
    }
    while i < output.len()
        invariant
            i <= output.len(),
            segments(output@.take(i as int)) == complete.push(current@),
            lines.deep_view() == complete.filter(is_filled()),
        decreases output.len() - i,
    {
        let byte = output[i];
        proof {
            let front = output@.take(i as int);
            let next = output@.take(i + 1);
            assert(next.drop_last() =~= front);
            assert(next.last() == byte);
            assert(complete.push(current@).drop_last() =~= complete);
        }
        if byte == LINE_FEED {
            proof {
                complete.lemma_filter_push(current@, is_filled());
                complete = complete.push(current@);
            }
            if current.len() > 0 {
                let ghost before = lines.deep_view();
                let ghost line = current@;
                proof {
                    assert(current.deep_view() =~= line);
                }
                lines.push(current);
                proof {
                    assert(lines.deep_view() =~= before.push(line));
                }
            }
            current = Vec::new();
        } else {
            current.push(byte);
        }
        i = i + 1;
    }
    proof {
        assert(output@.take(output.len() as int) =~= output@);
        complete.lemma_filter_push(current@, is_filled());
    }
    if current.len() > 0 {
        let ghost before = lines.deep_view();
        let ghost line = current@;
        proof {
            assert(current.deep_view() =~= line);
        }
        lines.push(current);
        proof {
            assert(lines.deep_view() =~= before.push(line));
        }
    }
    lines
}

/// The comments of an answer and how many of its lines did not parse.
#[derive(Clone, Debug, PartialEq, Eq)]
pub struct ParsedComments {
    pub comments: Vec<Comment>,
    pub dropped: usize,
}

/// Collects the comments that the lines of an answer parsed to. A line that
/// did not parse (`None`) is skipped and counted; it does not discard the
/// others.
pub fn keep_parsed(parsed: Vec<Option<Comment>>) -> (r: ParsedComments)
    ensures
        r.comments.deep_view() == kept_comments(parsed.deep_view()),
        r.comments.len() + r.dropped == parsed.len(),
{
    let ghost views = parsed.deep_view();
    let ghost entries = parsed@;
    let mut comments: Vec<Comment> = Vec::new();
    let mut dropped: usize = 0;
    proof {
        assert(entries.len() == parsed.len());
        assert(views.take(0) =~= Seq::<Option<CommentView>>::empty());
        assert(comments.deep_view() =~= views.take(0).filter_map(parsed_comment()));
    }
    for entry in it: parsed
        invariant
            it.seq() == entries,
            views.len() == entries.len(),
            entries.len() <= usize::MAX,
            forall|j: int| 0 <= j < entries.len() ==> (#[trigger] entries[j]).deep_view() == views[j],
            comments.deep_view() == views.take(it.index() as int).filter_map(parsed_comment()),
            comments.len() + dropped == it.index(),
    {
        let ghost before = comments.deep_view();
        let ghost i = it.index() as int;
        proof {
            views.lemma_filter_map_take_succ(parsed_comment(), i);
            assert(entry.deep_view() == views[i]);
            assert(parsed_comment()(views[i]) == views[i]);
        }
        match entry {
            Some(comment) => {
                comments.push(comment);
                proof {
                    assert(comments.deep_view() =~= before + seq![comment@]);
                }
            },
            None => {
                dropped = dropped + 1;
                proof {
                    assert(before + Seq::<CommentView>::empty() =~= before);
                }
            },
        }
    }
    proof {
        assert(views.take(entries.len() as int) =~= views);
    }
    ParsedComments { comments, dropped }
}

} // verus!
