//! The structured line format: one record per activity item, written as one
//! line, and read back.
//!
//! A line is a JSON object without any white space whose keys stand in
//! alphabetical order:
//! `{"comments":[..],"created_at":..,"description":..,"repository":..,"status":..,"title":..,"url":..}`,
//! each comment being `{"comment_body":..,"created_at":..,"user":..}`.

use crate::error::PipelineError;
use crate::json::{
    json_quote,
    lemma_read_quoted,
    lemma_no_control_concat,
    lemma_quoted_no_control,
    lemma_read_quoted_sound,
    no_control,
    quoted,
    read_quoted,
    read_quoted_at,
};
use crate::model::{ActivityItem, ActivityItemView, Comment, CommentView};
use crate::text::chars_of;
use vstd::prelude::*;

verus! {

/// How a record begins, up to the opening bracket of its comments.
pub const RECORD_OPEN: &'static str = "{\"comments\":[";

/// How a comment begins, up to the value of its body.
pub const COMMENT_OPEN: &'static str = "{\"comment_body\":";

/// The key of the creation time, in a record and in a comment.
pub const KEY_CREATED_AT: &'static str = ",\"created_at\":";

/// The key of the description.
pub const KEY_DESCRIPTION: &'static str = ",\"description\":";

/// The key of the repository.
pub const KEY_REPOSITORY: &'static str = ",\"repository\":";

/// The key of the status.
pub const KEY_STATUS: &'static str = ",\"status\":";

/// The key of the title.
pub const KEY_TITLE: &'static str = ",\"title\":";

/// The key of the URL.
pub const KEY_URL: &'static str = ",\"url\":";

/// The key of a comment's user.
pub const KEY_USER: &'static str = ",\"user\":";

/// The user that is written for a comment without an author.
pub const UNKNOWN_USER: &'static str = "Unknown";

/// A comment as a record line holds it.
#[derive(Clone, Debug, PartialEq, Eq)]
pub struct LineComment {
    pub user: String,
    pub comment_body: String,
    pub created_at: String,
}

/// An activity item as a record line holds it.
#[derive(Clone, Debug, PartialEq, Eq)]
pub struct LineRecord {
    pub url: String,
    pub title: String,
    pub description: String,
    pub status: String,
    pub repository: String,
    pub created_at: String,
    pub comments: Vec<LineComment>,
}

/// What a [`LineComment`] holds, as mathematical values.
pub struct LineCommentView {
    pub user: Seq<char>,
    pub comment_body: Seq<char>,
    pub created_at: Seq<char>,
}

/// What a [`LineRecord`] holds, as mathematical values.
pub struct LineRecordView {
    pub url: Seq<char>,
    pub title: Seq<char>,
    pub description: Seq<char>,
    pub status: Seq<char>,
    pub repository: Seq<char>,
    pub created_at: Seq<char>,
    pub comments: Seq<LineCommentView>,
}

impl View for LineComment {
    type V = LineCommentView;

    open spec fn view(&self) -> LineCommentView {
        LineCommentView {
            user: self.user@,
            comment_body: self.comment_body@,
            created_at: self.created_at@,
        }
    }
}

impl DeepView for LineComment {
    type V = LineCommentView;

    open spec fn deep_view(&self) -> LineCommentView {
        self@
    }
}

impl View for LineRecord {
    type V = LineRecordView;

    open spec fn view(&self) -> LineRecordView {
        LineRecordView {
            url: self.url@,
            title: self.title@,
            description: self.description@,
            status: self.status@,
            repository: self.repository@,
            created_at: self.created_at@,
            comments: self.comments.deep_view(),
        }
    }
}

impl DeepView for LineRecord {
    type V = LineRecordView;

    open spec fn deep_view(&self) -> LineRecordView {
        self@
    }
}

/// What a line holds of a comment: the author's login, or `Unknown` where
/// there is no author, the body and the creation time.
pub open spec fn line_comment_of(comment: CommentView) -> LineCommentView {
    LineCommentView {
        user: match comment.author {
            Some(login) => login,
            None => UNKNOWN_USER@,
        },
        comment_body: comment.body,
        created_at: comment.created_at,
    }
}

/// What a line holds of an item: the body as description, empty where there
/// is none, the state as status, and every comment of the item.
pub open spec fn line_record_of(item: ActivityItemView) -> LineRecordView {
    LineRecordView {
        url: item.url,
        title: item.title,
        description: match item.body {
            Some(body) => body,
            None => Seq::empty(),
        },
        status: item.state,
        repository: item.repository,
        created_at: item.created_at,
        comments: item.comments.map_values(|comment: CommentView| line_comment_of(comment)),
    }
}

/// A key and the literal of its value.
pub open spec fn field_text(key: Seq<char>, value: Seq<char>) -> Seq<char> {
    key + quoted(value)
}

/// The text of one comment.
#[verifier::opaque]
pub open spec fn comment_text(comment: LineCommentView) -> Seq<char> {
    field_text(COMMENT_OPEN@, comment.comment_body) + field_text(
        KEY_CREATED_AT@,
        comment.created_at,
    ) + field_text(KEY_USER@, comment.user) + seq!['}']
}

/// The text of the comments that follow another comment: each after a comma.
pub open spec fn more_comments_text(comments: Seq<LineCommentView>) -> Seq<char>
    decreases comments.len(),
{
    if comments.len() == 0 {
        Seq::empty()
    } else {
        seq![','] + comment_text(comments[0]) + more_comments_text(comments.skip(1))
    }
}

/// The text of a record's comments, separated by commas.
pub open spec fn comments_text(comments: Seq<LineCommentView>) -> Seq<char> {
    if comments.len() == 0 {
        Seq::empty()
    } else {
        comment_text(comments[0]) + more_comments_text(comments.skip(1))
    }
}

/// The line for a record.
pub open spec fn record_text(record: LineRecordView) -> Seq<char> {
    RECORD_OPEN@ + comments_text(record.comments) + seq![']'] + field_text(
        KEY_CREATED_AT@,
        record.created_at,
    ) + field_text(KEY_DESCRIPTION@, record.description) + field_text(
        KEY_REPOSITORY@,
        record.repository,
    ) + field_text(KEY_STATUS@, record.status) + field_text(KEY_TITLE@, record.title)
        + field_text(KEY_URL@, record.url) + seq!['}']
}

/// Reads `word` from the front of `input`. Gives what follows it.
pub open spec fn expect(input: Seq<char>, word: Seq<char>) -> Option<Seq<char>> {
    if word.is_prefix_of(input) {
        Some(input.skip(word.len() as int))
    } else {
        None
    }
}

/// Reads the character `c` from the front of `input`. Gives what follows it.
pub open spec fn expect_char(input: Seq<char>, c: char) -> Option<Seq<char>> {
    if input.len() > 0 && input[0] == c {
        Some(input.skip(1))
    } else {
        None
    }
}

/// Reads a key and the literal of its value. Gives the value and what
/// follows.
pub open spec fn read_field(input: Seq<char>, key: Seq<char>) -> Option<(Seq<char>, Seq<char>)> {
    match expect(input, key) {
        Some(rest) => read_quoted(rest),
        None => None,
    }
}

/// Reads one comment. Gives the comment and what follows it.
#[verifier::opaque]
pub open spec fn read_comment(input: Seq<char>) -> Option<(LineCommentView, Seq<char>)> {
    match read_field(input, COMMENT_OPEN@) {
        Some((comment_body, after_body)) => match read_field(after_body, KEY_CREATED_AT@) {
            Some((created_at, after_created)) => match read_field(after_created, KEY_USER@) {
                Some((user, after_user)) => match expect_char(after_user, '}') {
                    Some(rest) => Some((LineCommentView { user, comment_body, created_at }, rest)),
                    None => None,
                },
                None => None,
            },
            None => None,
        },
        None => None,
    }
}

/// A read result with `first` put before its comments.
pub open spec fn prepend_comments(
    first: Seq<LineCommentView>,
    read: Option<(Seq<LineCommentView>, Seq<char>)>,
) -> Option<(Seq<LineCommentView>, Seq<char>)> {
    match read {
        Some((comments, rest)) => Some((first + comments, rest)),
        None => None,
    }
}

/// Reads the comments that follow another comment, up to and with the closing
/// bracket. Gives the comments and what follows the bracket.
pub open spec fn read_more_comments(input: Seq<char>) -> Option<(Seq<LineCommentView>, Seq<char>)>
    decreases input.len(),
{
    if input.len() == 0 {
        None
    } else if input[0] == ']' {
        Some((Seq::empty(), input.skip(1)))
    } else if input[0] == ',' {
        match read_comment(input.skip(1)) {
            Some((comment, rest)) => if rest.len() < input.len() {
                prepend_comments(seq![comment], read_more_comments(rest))
            } else {
                None
            },
            None => None,
        }
    } else {
        None
    }
}

/// Reads the comments of a record, up to and with the closing bracket. Gives
/// the comments and what follows the bracket.
pub open spec fn read_comments(input: Seq<char>) -> Option<(Seq<LineCommentView>, Seq<char>)> {
    if input.len() > 0 && input[0] == ']' {
        Some((Seq::empty(), input.skip(1)))
    } else {
        match read_comment(input) {
            Some((comment, rest)) => prepend_comments(seq![comment], read_more_comments(rest)),
            None => None,
        }
    }
}

/// Reads one record from the front of `input`. Gives the record and what
/// follows it.
pub open spec fn read_record(input: Seq<char>) -> Option<(LineRecordView, Seq<char>)> {
    match expect(input, RECORD_OPEN@) {
        Some(after_open) => match read_comments(after_open) {
            Some((comments, after_comments)) => match read_field(after_comments, KEY_CREATED_AT@) {
                Some((created_at, after_created)) => match read_field(
                    after_created,
                    KEY_DESCRIPTION@,
                ) {
                    Some((description, after_description)) => match read_field(
                        after_description,
                        KEY_REPOSITORY@,
                    ) {
                        Some((repository, after_repository)) => match read_field(
                            after_repository,
                            KEY_STATUS@,
                        ) {
                            Some((status, after_status)) => match read_field(
                                after_status,
                                KEY_TITLE@,
                            ) {
                                Some((title, after_title)) => match read_field(
                                    after_title,
                                    KEY_URL@,
                                ) {
                                    Some((url, after_url)) => match expect_char(after_url, '}') {
                                        Some(rest) => Some(
                                            (
                                                LineRecordView {
                                                    url,
                                                    title,
                                                    description,
                                                    status,
                                                    repository,
                                                    created_at,
                                                    comments,
                                                },
                                                rest,
                                            ),
                                        ),
                                        None => None,
                                    },
                                    None => None,
                                },
                                None => None,
                            },
                            None => None,
                        },
                        None => None,
                    },
                    None => None,
                },
                None => None,
            },
            None => None,
        },
        None => None,
    }
}

/// The record that a line holds, where the whole line is one record as
/// `record_text` writes it.
pub open spec fn parse_record(line: Seq<char>) -> Option<LineRecordView> {
    match read_record(line) {
        Some((record, rest)) => if rest.len() == 0 {
            Some(record)
        } else {
            None
        },
        None => None,
    }
}

proof fn lemma_expect(word: Seq<char>, rest: Seq<char>)
    ensures
        expect(word + rest, word) == Some(rest),
{
    assert((word + rest).subrange(0, word.len() as int) =~= word);
    assert((word + rest).skip(word.len() as int) =~= rest);
}

proof fn lemma_read_field(key: Seq<char>, value: Seq<char>, rest: Seq<char>)
    ensures
        read_field(field_text(key, value) + rest, key) == Some((value, rest)),
{
    assert(field_text(key, value) + rest =~= key + (quoted(value) + rest));
    lemma_expect(key, quoted(value) + rest);
    lemma_read_quoted(value, rest);
}

/// Reading the text of a comment gives the comment back and leaves what
/// follows it.
pub proof fn lemma_read_comment(comment: LineCommentView, rest: Seq<char>)
    ensures
        read_comment(comment_text(comment) + rest) == Some((comment, rest)),
{
    reveal(comment_text);
    reveal(read_comment);
    let after_user = seq!['}'] + rest;
    let after_created = field_text(KEY_USER@, comment.user) + after_user;
    let after_body = field_text(KEY_CREATED_AT@, comment.created_at) + after_created;
    assert(comment_text(comment) + rest =~= field_text(COMMENT_OPEN@, comment.comment_body)
        + after_body);
    lemma_read_field(COMMENT_OPEN@, comment.comment_body, after_body);
    lemma_read_field(KEY_CREATED_AT@, comment.created_at, after_created);
    lemma_read_field(KEY_USER@, comment.user, after_user);
    assert(after_user.skip(1) =~= rest);
}

proof fn lemma_read_more_comments(comments: Seq<LineCommentView>, rest: Seq<char>)
    ensures
        read_more_comments(more_comments_text(comments) + seq![']'] + rest) == Some(
            (comments, rest),
        ),
    decreases comments.len(),
{
    let input = more_comments_text(comments) + seq![']'] + rest;
    if comments.len() == 0 {
        assert(input[0] == ']');
        assert(input.skip(1) =~= rest);
    } else {
        let first = comment_text(comments[0]);
        let tail = comments.skip(1);
        let more = more_comments_text(tail);
        let after = more + seq![']'] + rest;
        assert(input == seq![','] + (first + after)) by {
            lemma_regroup(seq![','] + first, more, seq![']']);
            lemma_regroup(seq![','] + first, more + seq![']'], rest);
            lemma_regroup(seq![','], first, after);
        }
        assert(input[0] == ',');
        assert(input.skip(1) =~= first + after);
        lemma_read_comment(comments[0], after);
        lemma_read_more_comments(tail, rest);
        assert(seq![comments[0]] + tail =~= comments);
    }
}

proof fn lemma_comment_text_opens(comment: LineCommentView)
    ensures
        comment_text(comment).len() > 0,
        comment_text(comment)[0] == '{',
{
    reveal(comment_text);
    reveal_strlit("{\"comment_body\":");
    assert(COMMENT_OPEN@.len() == 16);
    assert(COMMENT_OPEN@[0] == '{');
}

/// Reading the text of a record's comments, closed by the bracket, gives the
/// comments back and leaves what follows the bracket.
pub proof fn lemma_read_comments(comments: Seq<LineCommentView>, rest: Seq<char>)
    ensures
        read_comments(comments_text(comments) + seq![']'] + rest) == Some((comments, rest)),
{
    let input = comments_text(comments) + seq![']'] + rest;
    if comments.len() == 0 {
        assert(input[0] == ']');
        assert(input.skip(1) =~= rest);
    } else {
        let first = comment_text(comments[0]);
        let tail = comments.skip(1);
        let more = more_comments_text(tail);
        let after = more + seq![']'] + rest;
        assert(input == first + after) by {
            lemma_regroup(first, more, seq![']']);
            lemma_regroup(first, more + seq![']'], rest);
        }
        assert(input.len() > 0 && input[0] == '{') by {
            lemma_comment_text_opens(comments[0]);
        }
        lemma_read_comment(comments[0], after);
        lemma_read_more_comments(tail, rest);
        assert(seq![comments[0]] + tail =~= comments);
    }
}

proof fn lemma_regroup(a: Seq<char>, b: Seq<char>, c: Seq<char>)
    ensures
        (a + b) + c == a + (b + c),
{
    assert((a + b) + c =~= a + (b + c));
}

/// What follows the first `done` of the six fields behind the comments of a
/// record, in a line that goes on with `rest`.
spec fn fields_tail(record: LineRecordView, rest: Seq<char>, done: int) -> Seq<char> {
    let after_url = seq!['}'] + rest;
    let after_title = field_text(KEY_URL@, record.url) + after_url;
    let after_status = field_text(KEY_TITLE@, record.title) + after_title;
    let after_repository = field_text(KEY_STATUS@, record.status) + after_status;
    let after_description = field_text(KEY_REPOSITORY@, record.repository) + after_repository;
    let after_created = field_text(KEY_DESCRIPTION@, record.description) + after_description;
    if done <= 0 {
        field_text(KEY_CREATED_AT@, record.created_at) + after_created
    } else if done == 1 {
        after_created
    } else if done == 2 {
        after_description
    } else if done == 3 {
        after_repository
    } else if done == 4 {
        after_status
    } else if done == 5 {
        after_title
    } else {
        after_url
    }
}

proof fn lemma_record_text_parts(record: LineRecordView, rest: Seq<char>)
    ensures
        record_text(record) + rest == RECORD_OPEN@ + (comments_text(record.comments) + seq![']']
            + fields_tail(record, rest, 0)),
{
    let opened = RECORD_OPEN@ + comments_text(record.comments);
    let closed = opened + seq![']'];
    let with_created = closed + field_text(KEY_CREATED_AT@, record.created_at);
    let with_description = with_created + field_text(KEY_DESCRIPTION@, record.description);
    let with_repository = with_description + field_text(KEY_REPOSITORY@, record.repository);
    let with_status = with_repository + field_text(KEY_STATUS@, record.status);
    let with_title = with_status + field_text(KEY_TITLE@, record.title);
    let with_url = with_title + field_text(KEY_URL@, record.url);
    assert(record_text(record) == with_url + seq!['}']);
    let after_url = seq!['}'] + rest;
    let after_title = field_text(KEY_URL@, record.url) + after_url;
    let after_status = field_text(KEY_TITLE@, record.title) + after_title;
    let after_repository = field_text(KEY_STATUS@, record.status) + after_status;
    let after_description = field_text(KEY_REPOSITORY@, record.repository) + after_repository;
    let after_created = field_text(KEY_DESCRIPTION@, record.description) + after_description;
    let after_comments = field_text(KEY_CREATED_AT@, record.created_at) + after_created;
    assert(after_comments == fields_tail(record, rest, 0));
    lemma_regroup(with_url, seq!['}'], rest);
    lemma_regroup(with_title, field_text(KEY_URL@, record.url), after_url);
    lemma_regroup(with_status, field_text(KEY_TITLE@, record.title), after_title);
    lemma_regroup(with_repository, field_text(KEY_STATUS@, record.status), after_status);
    lemma_regroup(with_description, field_text(KEY_REPOSITORY@, record.repository), after_repository);
    lemma_regroup(with_created, field_text(KEY_DESCRIPTION@, record.description), after_description);
    lemma_regroup(closed, field_text(KEY_CREATED_AT@, record.created_at), after_created);
    assert(record_text(record) + rest == closed + after_comments);
    lemma_regroup(opened, seq![']'], after_comments);
    lemma_regroup(RECORD_OPEN@, comments_text(record.comments), seq![']'] + after_comments);
    lemma_regroup(comments_text(record.comments), seq![']'], after_comments);
}

proof fn lemma_read_fields(record: LineRecordView, rest: Seq<char>)
    ensures
        read_field(fields_tail(record, rest, 0), KEY_CREATED_AT@) == Some(
            (record.created_at, fields_tail(record, rest, 1)),
        ),
        read_field(fields_tail(record, rest, 1), KEY_DESCRIPTION@) == Some(
            (record.description, fields_tail(record, rest, 2)),
        ),
        read_field(fields_tail(record, rest, 2), KEY_REPOSITORY@) == Some(
            (record.repository, fields_tail(record, rest, 3)),
        ),
        read_field(fields_tail(record, rest, 3), KEY_STATUS@) == Some(
            (record.status, fields_tail(record, rest, 4)),
        ),
        read_field(fields_tail(record, rest, 4), KEY_TITLE@) == Some(
            (record.title, fields_tail(record, rest, 5)),
        ),
        read_field(fields_tail(record, rest, 5), KEY_URL@) == Some(
            (record.url, fields_tail(record, rest, 6)),
        ),
        expect_char(fields_tail(record, rest, 6), '}') == Some(rest),
{
    lemma_read_field(KEY_CREATED_AT@, record.created_at, fields_tail(record, rest, 1));
    lemma_read_field(KEY_DESCRIPTION@, record.description, fields_tail(record, rest, 2));
    lemma_read_field(KEY_REPOSITORY@, record.repository, fields_tail(record, rest, 3));
    lemma_read_field(KEY_STATUS@, record.status, fields_tail(record, rest, 4));
    lemma_read_field(KEY_TITLE@, record.title, fields_tail(record, rest, 5));
    lemma_read_field(KEY_URL@, record.url, fields_tail(record, rest, 6));
    assert(fields_tail(record, rest, 6).skip(1) =~= rest);
}

/// Reading the line of a record gives the record back and leaves what follows
/// the line.
pub proof fn lemma_read_record(record: LineRecordView, rest: Seq<char>)
    ensures
        read_record(record_text(record) + rest) == Some((record, rest)),
{
    let after_comments = fields_tail(record, rest, 0);
    let after_open = comments_text(record.comments) + seq![']'] + after_comments;
    lemma_record_text_parts(record, rest);
    lemma_expect(RECORD_OPEN@, after_open);
    lemma_read_comments(record.comments, after_comments);
    lemma_read_fields(record, rest);
}

/// Round trip of a record: the line that is written for a record is read back
/// as that record, with every field and every comment as it was.
pub proof fn lemma_record_round_trip(record: LineRecordView)
    ensures
        parse_record(record_text(record)) == Some(record),
{
    lemma_read_record(record, Seq::empty());
    assert(record_text(record) + Seq::<char>::empty() =~= record_text(record));
}

proof fn lemma_expect_sound(input: Seq<char>, word: Seq<char>)
    requires
        expect(input, word) is Some,
    ensures
        input == word + expect(input, word).unwrap(),
{
    assert(input =~= word + input.skip(word.len() as int));
}

proof fn lemma_read_field_sound(input: Seq<char>, key: Seq<char>)
    requires
        read_field(input, key) is Some,
    ensures
        input == field_text(key, read_field(input, key).unwrap().0) + read_field(
            input,
            key,
        ).unwrap().1,
{
    let after = expect(input, key).unwrap();
    let value = read_field(input, key).unwrap().0;
    let rest = read_field(input, key).unwrap().1;
    lemma_expect_sound(input, key);
    lemma_read_quoted_sound(after);
    lemma_regroup(key, quoted(value), rest);
}

/// What is read as a comment is the text of the comment that is given.
pub proof fn lemma_read_comment_sound(input: Seq<char>)
    requires
        read_comment(input) is Some,
    ensures
        input == comment_text(read_comment(input).unwrap().0) + read_comment(input).unwrap().1,
{
    reveal(read_comment);
    reveal(comment_text);
    let comment = read_comment(input).unwrap().0;
    let rest = read_comment(input).unwrap().1;
    let after_body = read_field(input, COMMENT_OPEN@).unwrap().1;
    let after_created = read_field(after_body, KEY_CREATED_AT@).unwrap().1;
    let after_user = read_field(after_created, KEY_USER@).unwrap().1;
    let body = field_text(COMMENT_OPEN@, comment.comment_body);
    let created = field_text(KEY_CREATED_AT@, comment.created_at);
    let user = field_text(KEY_USER@, comment.user);
    lemma_read_field_sound(input, COMMENT_OPEN@);
    lemma_read_field_sound(after_body, KEY_CREATED_AT@);
    lemma_read_field_sound(after_created, KEY_USER@);
    assert(after_user =~= seq!['}'] + rest);
    lemma_regroup(body + created + user, seq!['}'], rest);
    lemma_regroup(body + created, user, after_user);
    lemma_regroup(body, created, after_created);
}

proof fn lemma_read_more_comments_sound(input: Seq<char>)
    requires
        read_more_comments(input) is Some,
    ensures
        input == more_comments_text(read_more_comments(input).unwrap().0) + seq![']']
            + read_more_comments(input).unwrap().1,
    decreases input.len(),
{
    let comments = read_more_comments(input).unwrap().0;
    let rest = read_more_comments(input).unwrap().1;
    if input[0] == ']' {
        assert(input =~= more_comments_text(comments) + seq![']'] + rest);
    } else {
        let first = read_comment(input.skip(1)).unwrap().0;
        let after = read_comment(input.skip(1)).unwrap().1;
        let tail = read_more_comments(after).unwrap().0;
        lemma_read_comment_sound(input.skip(1));
        lemma_read_more_comments_sound(after);
        assert(comments == seq![first] + tail);
        assert(comments[0] == first);
        assert(comments.skip(1) =~= tail);
        let text = comment_text(first);
        let more = more_comments_text(tail);
        assert(more_comments_text(comments) == seq![','] + text + more);
        assert(input =~= seq![','] + input.skip(1));
        assert(after == more + seq![']'] + rest);
        lemma_regroup(seq![','] + text, more, seq![']']);
        lemma_regroup(seq![','] + text, more + seq![']'], rest);
        lemma_regroup(seq![','], text, after);
    }
}

/// What is read as the comments of a record is the text of the comments that
/// are given, closed by the bracket.
pub proof fn lemma_read_comments_sound(input: Seq<char>)
    requires
        read_comments(input) is Some,
    ensures
        input == comments_text(read_comments(input).unwrap().0) + seq![']'] + read_comments(
            input,
        ).unwrap().1,
{
    let comments = read_comments(input).unwrap().0;
    let rest = read_comments(input).unwrap().1;
    if input.len() > 0 && input[0] == ']' {
        assert(input =~= comments_text(comments) + seq![']'] + rest);
    } else {
        let first = read_comment(input).unwrap().0;
        let after = read_comment(input).unwrap().1;
        let tail = read_more_comments(after).unwrap().0;
        lemma_read_comment_sound(input);
        lemma_read_more_comments_sound(after);
        assert(comments == seq![first] + tail);
        assert(comments[0] == first);
        assert(comments.skip(1) =~= tail);
        let text = comment_text(first);
        let more = more_comments_text(tail);
        assert(comments_text(comments) == text + more);
        lemma_regroup(text, more, seq![']']);
        lemma_regroup(text, more + seq![']'], rest);
    }
}

/// What is read as a record is the line of the record that is given.
pub proof fn lemma_read_record_sound(input: Seq<char>)
    requires
        read_record(input) is Some,
    ensures
        input == record_text(read_record(input).unwrap().0) + read_record(input).unwrap().1,
{
    let record = read_record(input).unwrap().0;
    let rest = read_record(input).unwrap().1;
    let after_open = expect(input, RECORD_OPEN@).unwrap();
    let after_comments = read_comments(after_open).unwrap().1;
    let after_created = read_field(after_comments, KEY_CREATED_AT@).unwrap().1;
    let after_description = read_field(after_created, KEY_DESCRIPTION@).unwrap().1;
    let after_repository = read_field(after_description, KEY_REPOSITORY@).unwrap().1;
    let after_status = read_field(after_repository, KEY_STATUS@).unwrap().1;
    let after_title = read_field(after_status, KEY_TITLE@).unwrap().1;
    let after_url = read_field(after_title, KEY_URL@).unwrap().1;
    lemma_expect_sound(input, RECORD_OPEN@);
    lemma_read_comments_sound(after_open);
    lemma_read_field_sound(after_comments, KEY_CREATED_AT@);
    lemma_read_field_sound(after_created, KEY_DESCRIPTION@);
    lemma_read_field_sound(after_description, KEY_REPOSITORY@);
    lemma_read_field_sound(after_repository, KEY_STATUS@);
    lemma_read_field_sound(after_status, KEY_TITLE@);
    lemma_read_field_sound(after_title, KEY_URL@);
    assert(after_url =~= seq!['}'] + rest);
    assert(after_url == fields_tail(record, rest, 6));
    assert(after_title == fields_tail(record, rest, 5));
    assert(after_status == fields_tail(record, rest, 4));
    assert(after_repository == fields_tail(record, rest, 3));
    assert(after_description == fields_tail(record, rest, 2));
    assert(after_created == fields_tail(record, rest, 1));
    assert(after_comments == fields_tail(record, rest, 0));
    lemma_record_text_parts(record, rest);
}

/// Reading is the inverse of writing, and of nothing else: a line is read as
/// a record exactly where it is the line that is written for that record.
pub proof fn lemma_parse_is_inverse(line: Seq<char>, record: LineRecordView)
    ensures
        parse_record(line) == Some(record) <==> line == record_text(record),
{
    if line == record_text(record) {
        lemma_record_round_trip(record);
    }
    if parse_record(line) == Some(record) {
        lemma_read_record_sound(line);
        assert(record_text(record) + Seq::<char>::empty() =~= record_text(record));
    }
}

proof fn lemma_keys_no_control()
    ensures
        no_control(RECORD_OPEN@),
        no_control(COMMENT_OPEN@),
        no_control(KEY_CREATED_AT@),
        no_control(KEY_DESCRIPTION@),
        no_control(KEY_REPOSITORY@),
        no_control(KEY_STATUS@),
        no_control(KEY_TITLE@),
        no_control(KEY_URL@),
        no_control(KEY_USER@),
{
    reveal_strlit("{\"comments\":[");
    reveal_strlit("{\"comment_body\":");
    reveal_strlit(",\"created_at\":");
    reveal_strlit(",\"description\":");
    reveal_strlit(",\"repository\":");
    reveal_strlit(",\"status\":");
    reveal_strlit(",\"title\":");
    reveal_strlit(",\"url\":");
    reveal_strlit(",\"user\":");
}

proof fn lemma_field_no_control(key: Seq<char>, value: Seq<char>)
    requires
        no_control(key),
    ensures
        no_control(field_text(key, value)),
{
    lemma_quoted_no_control(value);
    lemma_no_control_concat(key, quoted(value));
}

proof fn lemma_comment_no_control(comment: LineCommentView)
    ensures
        no_control(comment_text(comment)),
{
    reveal(comment_text);
    lemma_keys_no_control();
    let body = field_text(COMMENT_OPEN@, comment.comment_body);
    let created = field_text(KEY_CREATED_AT@, comment.created_at);
    let user = field_text(KEY_USER@, comment.user);
    lemma_field_no_control(COMMENT_OPEN@, comment.comment_body);
    lemma_field_no_control(KEY_CREATED_AT@, comment.created_at);
    lemma_field_no_control(KEY_USER@, comment.user);
    lemma_no_control_concat(body, created);
    lemma_no_control_concat(body + created, user);
    lemma_no_control_concat(body + created + user, seq!['}']);
}

proof fn lemma_more_comments_no_control(comments: Seq<LineCommentView>)
    ensures
        no_control(more_comments_text(comments)),
    decreases comments.len(),
{
    if comments.len() > 0 {
        let text = comment_text(comments[0]);
        let more = more_comments_text(comments.skip(1));
        lemma_comment_no_control(comments[0]);
        lemma_more_comments_no_control(comments.skip(1));
        lemma_no_control_concat(seq![','], text);
        lemma_no_control_concat(seq![','] + text, more);
    }
}

/// A record line holds no control character, and so no line feed: whatever
/// the fields hold, the record stays on one line.
pub proof fn lemma_record_no_control(record: LineRecordView)
    ensures
        no_control(record_text(record)),
{
    lemma_keys_no_control();
    let comments = comments_text(record.comments);
    assert(no_control(comments)) by {
        if record.comments.len() > 0 {
            lemma_comment_no_control(record.comments[0]);
            lemma_more_comments_no_control(record.comments.skip(1));
            lemma_no_control_concat(
                comment_text(record.comments[0]),
                more_comments_text(record.comments.skip(1)),
            );
        }
    }
    let opened = RECORD_OPEN@ + comments;
    let closed = opened + seq![']'];
    let created = field_text(KEY_CREATED_AT@, record.created_at);
    let description = field_text(KEY_DESCRIPTION@, record.description);
    let repository = field_text(KEY_REPOSITORY@, record.repository);
    let status = field_text(KEY_STATUS@, record.status);
    let title = field_text(KEY_TITLE@, record.title);
    let url = field_text(KEY_URL@, record.url);
    lemma_field_no_control(KEY_CREATED_AT@, record.created_at);
    lemma_field_no_control(KEY_DESCRIPTION@, record.description);
    lemma_field_no_control(KEY_REPOSITORY@, record.repository);
    lemma_field_no_control(KEY_STATUS@, record.status);
    lemma_field_no_control(KEY_TITLE@, record.title);
    lemma_field_no_control(KEY_URL@, record.url);
    lemma_no_control_concat(RECORD_OPEN@, comments);
    lemma_no_control_concat(opened, seq![']']);
    lemma_no_control_concat(closed, created);
    lemma_no_control_concat(closed + created, description);
    lemma_no_control_concat(closed + created + description, repository);
    lemma_no_control_concat(closed + created + description + repository, status);
    lemma_no_control_concat(closed + created + description + repository + status, title);
    lemma_no_control_concat(closed + created + description + repository + status + title, url);
    lemma_no_control_concat(
        closed + created + description + repository + status + title + url,
        seq!['}'],
    );
}

/// Round trip of an item: from the line that is written for an item the URL,
/// title, description, status, repository and creation time come back as they
/// were, and as many comments as the item has.
pub proof fn lemma_item_round_trip(item: ActivityItemView)
    ensures
        parse_record(record_text(line_record_of(item))) matches Some(record) && {
            &&& record.url == item.url
            &&& record.title == item.title
            &&& record.description == match item.body {
                Some(body) => body,
                None => Seq::empty(),
            }
            &&& record.status == item.state
            &&& record.repository == item.repository
            &&& record.created_at == item.created_at
            &&& record.comments.len() == item.comments.len()
        },
{
    lemma_record_round_trip(line_record_of(item));
}

fn push_field(out: &mut String, key: &str, value: &str) -> (r: Result<(), PipelineError>)
    ensures
        r is Ok,
        final(out)@ == old(out)@ + field_text(key@, value@),
{
    match json_quote(value) {
        Ok(literal) => {
            out.append(key);
            out.append(literal.as_str());
            proof {
                lemma_regroup(old(out)@, key@, quoted(value@));
            }
            Ok(())
        },
        Err(_) => Err(PipelineError::SerializationFailed),
    }
}

fn push_comment(out: &mut String, comment: &Comment) -> (r: Result<(), PipelineError>)
    ensures
        r is Ok,
        final(out)@ == old(out)@ + comment_text(line_comment_of(comment@)),
{
    let ghost start = out@;
    let ghost line = line_comment_of(comment@);
    push_field(out, COMMENT_OPEN, comment.body.as_str())?;
    push_field(out, KEY_CREATED_AT, comment.created_at.as_str())?;
    let user: &str = match &comment.author {
        Some(author) => author.login.as_str(),
        None => UNKNOWN_USER,
    };
    push_field(out, KEY_USER, user)?;
    out.push('}');
    proof {
        reveal(comment_text);
        let body = field_text(COMMENT_OPEN@, line.comment_body);
        let created = field_text(KEY_CREATED_AT@, line.created_at);
        let named = field_text(KEY_USER@, line.user);
        assert(out@ == (((start + body) + created) + named).push('}'));
        assert(out@ =~= start + (body + created + named + seq!['}']));
    }
    Ok(())
}

/// Writes the line for an item: its URL, title, description (the body, or
/// the empty text where there is none), status, repository and creation time,
/// and every comment with its user (`Unknown` where there is no author), body
/// and creation time.
pub fn render_record(item: &ActivityItem) -> (r: Result<String, PipelineError>)
    ensures
        r is Ok,
        r matches Ok(line) ==> line@ == record_text(line_record_of(item@)),
{
    let ghost record = line_record_of(item@);
    let ghost comments = record.comments;
    let mut out = String::from_str(RECORD_OPEN);
    let n = item.comments.len();
    assert(comments.len() == n);
    if n > 0 {
        push_comment(&mut out, &item.comments[0])?;
        proof {
            assert(comments[0] == line_comment_of(item.comments@[0]@));
            lemma_regroup(
                RECORD_OPEN@,
                comment_text(comments[0]),
                more_comments_text(comments.skip(1)),
            );
        }
        let mut i: usize = 1;
        while i < n
            invariant
                1 <= i <= n,
                n == item.comments.len(),
                record == line_record_of(item@),
                comments == record.comments,
                comments.len() == n,
                out@ + more_comments_text(comments.skip(i as int)) == RECORD_OPEN@ + comments_text(
                    comments,
                ),
            decreases n - i,
        {
            let ghost before = out@;
            out.push(',');
            push_comment(&mut out, &item.comments[i])?;
            proof {
                let rest = comments.skip(i as int);
                assert(rest[0] == line_comment_of(item.comments@[i as int]@));
                assert(rest.skip(1) =~= comments.skip(i + 1));
                assert(out@ + more_comments_text(comments.skip(i + 1)) =~= before
                    + more_comments_text(rest));
            }
            i = i + 1;
        }
        proof {
            assert(out@ + more_comments_text(comments.skip(n as int)) =~= out@);
        }
    } else {
        proof {
            assert(RECORD_OPEN@ + comments_text(comments) =~= RECORD_OPEN@);
        }
    }
    assert(out@ == RECORD_OPEN@ + comments_text(comments));
    out.push(']');
    push_field(&mut out, KEY_CREATED_AT, item.created_at.as_str())?;
    let description: &str = match &item.body {
        Some(body) => body.as_str(),
        None => "",
    };
    proof {
        reveal_strlit("");
        assert(description@ =~= record.description);
    }
    push_field(&mut out, KEY_DESCRIPTION, description)?;
    push_field(&mut out, KEY_REPOSITORY, item.repository.name_with_owner.as_str())?;
    push_field(&mut out, KEY_STATUS, item.state.as_str())?;
    push_field(&mut out, KEY_TITLE, item.title.as_str())?;
    push_field(&mut out, KEY_URL, item.url.as_str())?;
    out.push('}');
    Ok(out)
}

fn expect_at(chars: &Vec<char>, pos: usize, word: &str) -> (r: Option<usize>)
    requires
        pos <= chars.len(),
    ensures
        match expect(chars@.skip(pos as int), word@) {
            Some(rest) => r == Some((pos + word@.len()) as usize) && pos + word@.len()
                <= chars.len() && rest == chars@.skip(pos + word@.len()),
            None => r is None,
        },
{
    let letters = chars_of(word);
    let ghost input = chars@.skip(pos as int);
    if letters.len() > chars.len() - pos {
        return None;
    }
    let mut i: usize = 0;
    while i < letters.len()
        invariant
            i <= letters.len(),
            pos + letters.len() <= chars.len(),
            letters@ == word@,
            input == chars@.skip(pos as int),
            forall|j: int| 0 <= j < i ==> input[j] == letters@[j],
        decreases letters.len() - i,
    {
        if chars[pos + i] != letters[i] {
            proof {
                assert(input[i as int] != word@[i as int]);
                assert(input.subrange(0, word@.len() as int)[i as int] == input[i as int]);
            }
            return None;
        }
        i = i + 1;
    }
    proof {
        assert(word@ =~= input.subrange(0, word@.len() as int));
        assert(input.skip(word@.len() as int) =~= chars@.skip(pos + word@.len()));
    }
    Some(pos + letters.len())
}

fn expect_char_at(chars: &Vec<char>, pos: usize, c: char) -> (r: Option<usize>)
    requires
        pos <= chars.len(),
    ensures
        match expect_char(chars@.skip(pos as int), c) {
            Some(rest) => r == Some((pos + 1) as usize) && pos + 1 <= chars.len() && rest
                == chars@.skip(pos + 1),
            None => r is None,
        },
{
    if pos < chars.len() && chars[pos] == c {
        proof {
            assert(chars@.skip(pos as int).skip(1) =~= chars@.skip(pos + 1));
        }
        Some(pos + 1)
    } else {
        None
    }
}

fn read_field_at(chars: &Vec<char>, pos: usize, key: &str) -> (r: Option<(String, usize)>)
    requires
        pos <= chars.len(),
    ensures
        match read_field(chars@.skip(pos as int), key@) {
            Some((value, rest)) => r matches Some((found, next)) && found@ == value && pos < next
                <= chars.len() && rest == chars@.skip(next as int),
            None => r is None,
        },
{
    match expect_at(chars, pos, key) {
        Some(at) => read_quoted_at(chars, at),
        None => None,
    }
}

fn read_comment_at(chars: &Vec<char>, pos: usize) -> (r: Option<(LineComment, usize)>)
    requires
        pos <= chars.len(),
    ensures
        match read_comment(chars@.skip(pos as int)) {
            Some((comment, rest)) => r matches Some((found, next)) && found@ == comment && pos
                < next <= chars.len() && rest == chars@.skip(next as int),
            None => r is None,
        },
{
    proof {
        reveal(read_comment);
    }
    match read_field_at(chars, pos, COMMENT_OPEN) {
        Some((comment_body, after_body)) => match read_field_at(chars, after_body, KEY_CREATED_AT) {
            Some((created_at, after_created)) => match read_field_at(
                chars,
                after_created,
                KEY_USER,
            ) {
                Some((user, after_user)) => match expect_char_at(chars, after_user, '}') {
                    Some(next) => Some((LineComment { user, comment_body, created_at }, next)),
                    None => None,
                },
                None => None,
            },
            None => None,
        },
        None => None,
    }
}

fn read_comments_at(chars: &Vec<char>, pos: usize) -> (r: Option<(Vec<LineComment>, usize)>)
    requires
        pos <= chars.len(),
    ensures
        match read_comments(chars@.skip(pos as int)) {
            Some((comments, rest)) => r matches Some((found, next)) && found.deep_view()
                == comments && pos < next <= chars.len() && rest == chars@.skip(next as int),
            None => r is None,
        },
{
    let mut comments: Vec<LineComment> = Vec::new();
    if pos < chars.len() && chars[pos] == ']' {
        proof {
            assert(chars@.skip(pos as int).skip(1) =~= chars@.skip(pos + 1));
            assert(comments.deep_view() =~= Seq::<LineCommentView>::empty());
        }
        return Some((comments, pos + 1));
    }
    let ghost whole = read_comments(chars@.skip(pos as int));
    let mut at: usize = match read_comment_at(chars, pos) {
        Some((comment, next)) => {
            comments.push(comment);
            next
        },
        None => {
            return None;
        },
    };
    proof {
        assert(comments.deep_view() =~= seq![comments@[0]@]);
    }
    loop
        invariant
            pos < at <= chars.len(),
            whole == read_comments(chars@.skip(pos as int)),
            whole == prepend_comments(
                comments.deep_view(),
                read_more_comments(chars@.skip(at as int)),
            ),
        decreases chars.len() - at,
    {
        let ghost input = chars@.skip(at as int);
        let ghost so_far = comments.deep_view();
        if at >= chars.len() {
            return None;
        }
        if chars[at] == ']' {
            proof {
                assert(input.skip(1) =~= chars@.skip(at + 1));
                assert(so_far + Seq::<LineCommentView>::empty() =~= so_far);
            }
            return Some((comments, at + 1));
        }
        if chars[at] != ',' {
            return None;
        }
        proof {
            assert(input.skip(1) =~= chars@.skip(at + 1));
        }
        match read_comment_at(chars, at + 1) {
            Some((comment, next)) => {
                proof {
                    let tail = read_more_comments(chars@.skip(next as int));
                    if tail is Some {
                        assert(so_far + (seq![comment@] + tail.unwrap().0) =~= so_far.push(comment@)
                            + tail.unwrap().0);
                    }
                }
                comments.push(comment);
                proof {
                    assert(comments.deep_view() =~= so_far.push(comment@));
                }
                at = next;
            },
            None => {
                return None;
            },
        }
    }
}

fn read_record_at(chars: &Vec<char>, pos: usize) -> (r: Option<(LineRecord, usize)>)
    requires
        pos <= chars.len(),
    ensures
        match read_record(chars@.skip(pos as int)) {
            Some((record, rest)) => r matches Some((found, next)) && found@ == record && pos
                < next <= chars.len() && rest == chars@.skip(next as int),
            None => r is None,
        },
{
    let after_open = match expect_at(chars, pos, RECORD_OPEN) {
        Some(next) => next,
        None => {
            return None;
        },
    };
    let (comments, after_comments) = match read_comments_at(chars, after_open) {
        Some(found) => found,
        None => {
            return None;
        },
    };
    let (created_at, after_created) = match read_field_at(chars, after_comments, KEY_CREATED_AT) {
        Some(found) => found,
        None => {
            return None;
        },
    };
    let (description, after_description) = match read_field_at(
        chars,
        after_created,
        KEY_DESCRIPTION,
    ) {
        Some(found) => found,
        None => {
            return None;
        },
    };
    let (repository, after_repository) = match read_field_at(
        chars,
        after_description,
        KEY_REPOSITORY,
    ) {
        Some(found) => found,
        None => {
            return None;
        },
    };
    let (status, after_status) = match read_field_at(chars, after_repository, KEY_STATUS) {
        Some(found) => found,
        None => {
            return None;
        },
    };
    let (title, after_title) = match read_field_at(chars, after_status, KEY_TITLE) {
        Some(found) => found,
        None => {
            return None;
        },
    };
    let (url, after_url) = match read_field_at(chars, after_title, KEY_URL) {
        Some(found) => found,
        None => {
            return None;
        },
    };
    match expect_char_at(chars, after_url, '}') {
        Some(next) => Some(
            (LineRecord { url, title, description, status, repository, created_at, comments }, next),
        ),
        None => None,
    }
}

/// Reads a line back into the record it holds. Gives `None` for any text
/// that is not, from its first character to its last, one record as
/// [`render_record`] writes it.
pub fn parse_record_line(line: &str) -> (r: Option<LineRecord>)
    ensures
        match parse_record(line@) {
            Some(record) => r matches Some(found) && found@ == record,
            None => r is None,
        },
{
    let chars = chars_of(line);
    proof {
        assert(chars@.skip(0) =~= line@);
    }
    match read_record_at(&chars, 0) {
        Some((record, next)) => {
            if next == chars.len() {
                Some(record)
            } else {
                None
            }
        },
        None => None,
    }
}

} // verus!
