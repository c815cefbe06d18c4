//! The activity records and their mathematical views.

use vstd::prelude::*;

verus! {

/// The two kinds of activity that are aggregated.
#[derive(Clone, Copy, Debug, PartialEq, Eq, Structural)]
pub enum ItemKind {
    PullRequest,
    Issue,
}

/// The repository an item belongs to, named as `owner/name`.
#[derive(Clone, Debug, PartialEq, Eq)]
pub struct Repository {
    pub name_with_owner: String,
}

/// The author of a comment.
#[derive(Clone, Debug, PartialEq, Eq)]
pub struct CommentAuthor {
    pub login: String,
}

/// One discussion comment on an item.
#[derive(Clone, Debug, PartialEq, Eq)]
pub struct Comment {
    pub author: Option<CommentAuthor>,
    pub body: String,
    pub created_at: String,
}

/// An activity record as the activity query returns it: no comments yet.
#[derive(Clone, Debug, PartialEq, Eq)]
pub struct ActivityRecord {
    pub number: u32,
    pub title: String,
    pub body: Option<String>,
    pub created_at: String,
    pub state: String,
    pub url: String,
    pub repository: Repository,
}

/// A normalised pull request or issue, with the comments sampled for it.
#[derive(Clone, Debug, PartialEq, Eq)]
pub struct ActivityItem {
    pub kind: ItemKind,
    pub number: u32,
    pub title: String,
    pub body: Option<String>,
    pub created_at: String,
    pub state: String,
    pub url: String,
    pub repository: Repository,
    pub comments: Vec<Comment>,
}

/// What a [`Comment`] holds, as mathematical values.
pub struct CommentView {
    pub author: Option<Seq<char>>,
    pub body: Seq<char>,
    pub created_at: Seq<char>,
}

/// What an [`ActivityRecord`] holds, as mathematical values.
pub struct ActivityRecordView {
    pub number: u32,
    pub title: Seq<char>,
    pub body: Option<Seq<char>>,
    pub created_at: Seq<char>,
    pub state: Seq<char>,
    pub url: Seq<char>,
    pub repository: Seq<char>,
}

/// What an [`ActivityItem`] holds, as mathematical values.
pub struct ActivityItemView {
    pub kind: ItemKind,
    pub number: u32,
    pub title: Seq<char>,
    pub body: Option<Seq<char>>,
    pub created_at: Seq<char>,
    pub state: Seq<char>,
    pub url: Seq<char>,
    pub repository: Seq<char>,
    pub comments: Seq<CommentView>,
}

/// The text of an optional string.
pub open spec fn optional_text(text: Option<String>) -> Option<Seq<char>> {
    match text {
        Some(t) => Some(t@),
        None => None,
    }
}

impl View for Repository {
    type V = Seq<char>;

    open spec fn view(&self) -> Seq<char> {
        self.name_with_owner@
    }
}

impl DeepView for Repository {
    type V = Seq<char>;

    open spec fn deep_view(&self) -> Seq<char> {
        self@
    }
}

impl View for CommentAuthor {
    type V = Seq<char>;

    open spec fn view(&self) -> Seq<char> {
        self.login@
    }
}

impl DeepView for CommentAuthor {
    type V = Seq<char>;

    open spec fn deep_view(&self) -> Seq<char> {
        self@
    }
}

impl View for Comment {
    type V = CommentView;

    open spec fn view(&self) -> CommentView {
        CommentView {
            author: match self.author {
                Some(a) => Some(a@),
                None => None,
            },
            body: self.body@,
            created_at: self.created_at@,
        }
    }
}

impl DeepView for Comment {
    type V = CommentView;

    open spec fn deep_view(&self) -> CommentView {
        self@
    }
}

impl View for ActivityRecord {
    type V = ActivityRecordView;

    open spec fn view(&self) -> ActivityRecordView {
        ActivityRecordView {
            number: self.number,
            title: self.title@,
            body: optional_text(self.body),
            created_at: self.created_at@,
            state: self.state@,
            url: self.url@,
            repository: self.repository@,
        }
    }
}

impl DeepView for ActivityRecord {
    type V = ActivityRecordView;

    open spec fn deep_view(&self) -> ActivityRecordView {
        self@
    }
}

impl View for ActivityItem {
    type V = ActivityItemView;

    open spec fn view(&self) -> ActivityItemView {
        ActivityItemView {
            kind: self.kind,
            number: self.number,
            title: self.title@,
            body: optional_text(self.body),
            created_at: self.created_at@,
            state: self.state@,
            url: self.url@,
            repository: self.repository@,
            comments: self.comments.deep_view(),
        }
    }
}

impl DeepView for ActivityItem {
    type V = ActivityItemView;

    open spec fn deep_view(&self) -> ActivityItemView {
        self@
    }
}

/// The item that a record becomes when it is normalised: the record's fields,
/// the kind it was queried under, and no comments.
pub open spec fn item_of_record(kind: ItemKind, record: ActivityRecordView) -> ActivityItemView {
    ActivityItemView {
        kind,
        number: record.number,
        title: record.title,
        body: record.body,
        created_at: record.created_at,
        state: record.state,
        url: record.url,
        repository: record.repository,
        comments: Seq::empty(),
    }
}

impl ActivityItem {
    /// Normalises one record of the given kind. The item starts without
    /// comments.
    pub fn from_record(kind: ItemKind, record: ActivityRecord) -> (item: ActivityItem)
        ensures
            item@ == item_of_record(kind, record@),
    {
        let item = ActivityItem {
            kind,
            number: record.number,
            title: record.title,
            body: record.body,
            created_at: record.created_at,
            state: record.state,
            url: record.url,
            repository: record.repository,
            comments: Vec::new(),
        };
        assert(item.comments.deep_view() =~= Seq::<CommentView>::empty());
        item
    }
}

} // verus!
