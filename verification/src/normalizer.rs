//! Normalising the records of one activity query and sampling comments for
//! the first few of them.
//!
//! The caller runs the queries. It asks the normaliser which comment query is
//! due, runs it, and hands the reply back, until no query is due.

use crate::error::{PipelineError, PipelineErrorView};
use crate::model::{
    item_of_record,
    ActivityItem,
    ActivityItemView,
    ActivityRecord,
    ActivityRecordView,
    Comment,
    CommentView,
    ItemKind,
};
use crate::source::RESULT_LIMIT;
use vstd::prelude::*;

verus! {

/// For how many items of each kind comments are fetched: the first five in
/// the order of the query's result.
pub const COMMENT_SAMPLE_SIZE: usize = 5;

/// The comment query that is due: for which item of which repository.
#[derive(Clone, Debug, PartialEq, Eq)]
pub struct CommentRequest {
    pub repository: String,
    pub kind: ItemKind,
    pub number: u32,
}

/// What a [`CommentRequest`] holds, as mathematical values.
pub struct CommentRequestView {
    pub repository: Seq<char>,
    pub kind: ItemKind,
    pub number: u32,
}

impl View for CommentRequest {
    type V = CommentRequestView;

    open spec fn view(&self) -> CommentRequestView {
        CommentRequestView { repository: self.repository@, kind: self.kind, number: self.number }
    }
}

/// What an activity query came to: it could not be run or was refused, its
/// result was no list of records, or it gave records.
#[derive(Clone, Debug, PartialEq, Eq)]
pub enum ActivityReply {
    Failed { detail: String },
    Malformed { detail: String },
    Records { records: Vec<ActivityRecord> },
}

/// What an [`ActivityReply`] holds, as mathematical values.
pub enum ActivityReplyView {
    Failed { detail: Seq<char> },
    Malformed { detail: Seq<char> },
    Records { records: Seq<ActivityRecordView> },
}

impl View for ActivityReply {
    type V = ActivityReplyView;

    open spec fn view(&self) -> ActivityReplyView {
        match self {
            ActivityReply::Failed { detail } => ActivityReplyView::Failed { detail: detail@ },
            ActivityReply::Malformed { detail } => ActivityReplyView::Malformed { detail: detail@ },
            ActivityReply::Records { records } => ActivityReplyView::Records {
                records: records.deep_view(),
            },
        }
    }
}

/// What a comment query came to: it failed as a whole, or it gave comments.
#[derive(Clone, Debug, PartialEq, Eq)]
pub enum CommentReply {
    Failed,
    Fetched { comments: Vec<Comment> },
}

/// The comments that a reply leaves an item with: those it fetched, or none
/// where the query failed.
pub open spec fn comments_of_reply(reply: CommentReply) -> Seq<CommentView> {
    match reply {
        CommentReply::Failed => Seq::empty(),
        CommentReply::Fetched { comments } => comments.deep_view(),
    }
}

/// The items that the records of one kind become: one for each record, in
/// the records' order, none with a comment.
pub open spec fn items_of_records(kind: ItemKind, records: Seq<ActivityRecordView>) -> Seq<
    ActivityItemView,
> {
    records.map_values(|record: ActivityRecordView| item_of_record(kind, record))
}

/// For how many of `count` items comments are fetched.
pub open spec fn sample_size(count: nat) -> nat {
    if count < COMMENT_SAMPLE_SIZE {
        count
    } else {
        COMMENT_SAMPLE_SIZE as nat
    }
}

/// The item with its comments replaced.
pub open spec fn with_comments(item: ActivityItemView, comments: Seq<CommentView>) -> ActivityItemView {
    ActivityItemView {
        kind: item.kind,
        number: item.number,
        title: item.title,
        body: item.body,
        created_at: item.created_at,
        state: item.state,
        url: item.url,
        repository: item.repository,
        comments,
    }
}

/// The comment query that is due when `answered` replies are in: for item
/// `answered`, where that item is among the sampled ones.
pub open spec fn due_request(items: Seq<ActivityItemView>, answered: nat) -> Option<
    CommentRequestView,
> {
    if answered < sample_size(items.len()) {
        Some(
            CommentRequestView {
                repository: items[answered as int].repository,
                kind: items[answered as int].kind,
                number: items[answered as int].number,
            },
        )
    } else {
        None
    }
}

/// The items after the reply to the comment query for item `answered` is
/// taken in: that item has the comments of the reply, every other item is as
/// it was. Where item `answered` is not among the sampled ones, nothing
/// changes.
pub open spec fn items_after_reply(
    items: Seq<ActivityItemView>,
    answered: nat,
    reply: CommentReply,
) -> Seq<ActivityItemView> {
    if answered < sample_size(items.len()) {
        items.update(
            answered as int,
            with_comments(items[answered as int], comments_of_reply(reply)),
        )
    } else {
        items
    }
}

/// The items after the replies are taken in one after the other, the first
/// of them as the reply to the query for item `answered`.
pub open spec fn items_after_replies(
    items: Seq<ActivityItemView>,
    answered: nat,
    replies: Seq<CommentReply>,
) -> Seq<ActivityItemView>
    decreases replies.len(),
{
    if replies.len() == 0 {
        items
    } else {
        items_after_replies(
            items_after_reply(items, answered, replies[0]),
            answered + 1,
            replies.skip(1),
        )
    }
}

/// Each reply reaches its own item and no other: after the replies are taken
/// in, a sampled item whose reply is among them has the comments of that
/// reply (none where that query failed), and every other item is as it was.
/// So a failed query for one item changes nothing for the items around it.
pub proof fn lemma_each_reply_reaches_its_item(
    items: Seq<ActivityItemView>,
    answered: nat,
    replies: Seq<CommentReply>,
)
    ensures
        items_after_replies(items, answered, replies).len() == items.len(),
        forall|i: int|
            0 <= i < items.len() ==> #[trigger] items_after_replies(items, answered, replies)[i]
                == if answered <= i < sample_size(items.len()) && i - answered < replies.len() {
                with_comments(items[i], comments_of_reply(replies[i - answered]))
            } else {
                items[i]
            },
    decreases replies.len(),
{
    if replies.len() > 0 {
        let next = items_after_reply(items, answered, replies[0]);
        let rest = replies.skip(1);
        lemma_each_reply_reaches_its_item(next, answered + 1, rest);
        assert forall|i: int| 0 <= i < items.len() implies #[trigger] items_after_replies(
            items,
            answered,
            replies,
        )[i] == if answered <= i < sample_size(items.len()) && i - answered < replies.len() {
            with_comments(items[i], comments_of_reply(replies[i - answered]))
        } else {
            items[i]
        } by {
            let last = items_after_replies(next, answered + 1, rest);
            assert(items_after_replies(items, answered, replies) == last);
            if answered + 1 <= i < sample_size(items.len()) && i - (answered + 1) < rest.len() {
                assert(rest[i - (answered + 1)] == replies[i - answered]);
                assert(next[i] == items[i]);
            }
        }
    }
}

/// The test "this item has a comment".
pub open spec fn has_comments() -> spec_fn(ActivityItemView) -> bool {
    |item: ActivityItemView| item.comments.len() > 0
}

/// How many of the items have a comment.
pub open spec fn commented_count(items: Seq<ActivityItemView>) -> nat {
    items.filter(has_comments()).len()
}

/// Where only the first `sampled` items can have a comment, at most
/// `sampled` items have one, however many items there are.
pub proof fn lemma_commented_bound(items: Seq<ActivityItemView>, sampled: nat)
    requires
        forall|i: int| sampled <= i < items.len() ==> (#[trigger] items[i]).comments.len() == 0,
    ensures
        commented_count(items) <= sampled,
        commented_count(items) <= items.len(),
    decreases items.len(),
{
    items.lemma_filter_len(has_comments());
    if items.len() <= sampled {
    } else {
        let rest = items.drop_last();
        assert forall|i: int| sampled <= i < rest.len() implies (#[trigger] rest[i]).comments.len()
            == 0 by {
            assert(rest[i] == items[i]);
        }
        lemma_commented_bound(rest, sampled);
        assert(rest.push(items.last()) =~= items);
        rest.lemma_filter_len_push(has_comments(), items.last());
        assert(items[items.len() - 1].comments.len() == 0);
    }
}

/// The records of one query on their way to normalised items: the items as
/// they stand, and how many comment replies have been taken in.
pub struct Normalizer {
    items: Vec<ActivityItem>,
    answered: usize,
}

impl Normalizer {
    #[verifier::type_invariant]
    spec fn well_formed(self) -> bool {
        &&& self.answered <= sample_size(self.items@.len())
        &&& forall|i: int|
            self.answered <= i < self.items@.len() ==> (#[trigger] self.items@[i]).comments@.len()
                == 0
    }

    /// The items as they stand.
    pub closed spec fn items(self) -> Seq<ActivityItemView> {
        self.items.deep_view()
    }

    /// How many comment replies have been taken in.
    pub closed spec fn answered(self) -> nat {
        self.answered as nat
    }

    /// Whether a comment query is due.
    pub open spec fn is_pending(self) -> bool {
        self.answered() < sample_size(self.items().len())
    }

    /// Starts the normalisation of the records of one kind. No reply is in
    /// yet and no item has a comment.
    pub fn new(kind: ItemKind, records: Vec<ActivityRecord>) -> (normalizer: Normalizer)
        ensures
            normalizer.items() == items_of_records(kind, records.deep_view()),
            normalizer.answered() == 0,
    {
        let ghost views = records.deep_view();
        let ghost sources = records@;
        let mut items: Vec<ActivityItem> = Vec::new();
        for record in it: records
            invariant
                it.seq() == sources,
                views.len() == sources.len(),
                forall|i: int| 0 <= i < sources.len() ==> (#[trigger] sources[i])@ == views[i],
                items.len() == it.index(),
                forall|i: int|
                    0 <= i < items.len() ==> (#[trigger] items@[i])@ == item_of_record(
                        kind,
                        views[i],
                    ),
        {
            items.push(ActivityItem::from_record(kind, record));
        }
        proof {
            assert(items.deep_view() =~= items_of_records(kind, views));
            assert forall|i: int| 0 <= i < items@.len() implies (#[trigger] items@[i]).comments@.len()
                == 0 by {
                assert(items@[i]@.comments.len() == 0);
            }
        }
        Normalizer { items, answered: 0 }
    }

    /// Starts the normalisation from what the activity query came to. A
    /// query that failed, or whose result is no list of records, ends the
    /// run with `SourceUnavailable` and what the transport said.
    pub fn start(kind: ItemKind, reply: ActivityReply) -> (r: Result<Normalizer, PipelineError>)
        ensures
            match reply@ {
                ActivityReplyView::Failed { detail } => r matches Err(error) && error@
                    == (PipelineErrorView::SourceUnavailable { detail }),
                ActivityReplyView::Malformed { detail } => r matches Err(error) && error@
                    == (PipelineErrorView::SourceUnavailable { detail }),
                ActivityReplyView::Records { records } => r matches Ok(normalizer)
                    && normalizer.items() == items_of_records(kind, records)
                    && normalizer.answered() == 0,
            },
    {
        match reply {
            ActivityReply::Failed { detail } => Err(PipelineError::SourceUnavailable { detail }),
            ActivityReply::Malformed { detail } => Err(PipelineError::SourceUnavailable { detail }),
            ActivityReply::Records { records } => Ok(Normalizer::new(kind, records)),
        }
    }

    /// Whether the result may have been cut off: it holds exactly as many
    /// records as a query asks for at most. This calls for a warning and does
    /// not end the run.
    pub fn truncation_suspected(&self) -> (r: bool)
        ensures
            r == (self.items().len() == RESULT_LIMIT),
    {
        self.items.len() == RESULT_LIMIT
    }

    /// The comment query that is due: for the first item whose reply is not
    /// in yet, as long as that item is among the first five. `None` once
    /// every sampled item has its reply.
    pub fn pending(&self) -> (r: Option<CommentRequest>)
        ensures
            match due_request(self.items(), self.answered()) {
                Some(request) => r matches Some(found) && found@ == request,
                None => r is None,
            },
    {
        proof {
            use_type_invariant(self);
        }
        if self.answered < COMMENT_SAMPLE_SIZE && self.answered < self.items.len() {
            let item = &self.items[self.answered];
            Some(
                CommentRequest {
                    repository: item.repository.name_with_owner.clone(),
                    kind: item.kind,
                    number: item.number,
                },
            )
        } else {
            None
        }
    }

    /// Takes in the reply to the comment query that is due. The item that
    /// the query was for gets the comments of the reply, or stays without
    /// comments where the query failed; every other item stays as it is, and
    /// the next query becomes due. Where no query is due the reply is
    /// dropped. A failed query is handed back as `CommentFetchFailed`, for
    /// the caller to note: it is no reason to stop.
    pub fn record(&mut self, reply: CommentReply) -> (noted: Option<PipelineError>)
        ensures
            final(self).items() == items_after_reply(
                old(self).items(),
                old(self).answered(),
                reply,
            ),
            final(self).answered() == if old(self).is_pending() {
                old(self).answered() + 1
            } else {
                old(self).answered()
            },
            noted matches Some(error) ==> error@ == PipelineErrorView::CommentFetchFailed,
            noted is Some <==> old(self).is_pending() && reply is Failed,
    {
        proof {
            use_type_invariant(&*self);
        }
        if self.answered < COMMENT_SAMPLE_SIZE && self.answered < self.items.len() {
            let ghost before = self.items.deep_view();
            let (comments, noted) = match reply {
                CommentReply::Failed => (Vec::new(), Some(PipelineError::CommentFetchFailed)),
                CommentReply::Fetched { comments } => (comments, None),
            };
            assert(comments.deep_view() =~= comments_of_reply(reply));
            let index = self.answered;
            self.answered = index + 1;
            self.items[index].comments = comments;
            proof {
                assert(self.items.deep_view() =~= before.update(
                    old(self).answered() as int,
                    with_comments(before[old(self).answered() as int], comments_of_reply(reply)),
                ));
            }
            noted
        } else {
            None
        }
    }

    /// The normalised items. At most five of them have a comment, however
    /// many there are.
    pub fn finish(self) -> (items: Vec<ActivityItem>)
        ensures
            items.deep_view() == self.items(),
            commented_count(items.deep_view()) <= COMMENT_SAMPLE_SIZE,
    {
        proof {
            use_type_invariant(&self);
            let views = self.items.deep_view();
            assert forall|i: int| COMMENT_SAMPLE_SIZE <= i < views.len() implies (
            #[trigger] views[i]).comments.len() == 0 by {
                assert(self.items@[i].comments@.len() == 0);
            }
            lemma_commented_bound(views, COMMENT_SAMPLE_SIZE as nat);
        }
        self.items
    }
}

} // verus!
