//! Counting the normalised activity: totals, counts by state, and the
//! repositories ranked by how many items they hold.

use crate::model::{ActivityItem, ActivityItemView};
use vstd::prelude::*;

verus! {

/// The state of a merged pull request.
pub const STATE_MERGED: &'static str = "merged";

/// The state of an open item.
pub const STATE_OPEN: &'static str = "open";

/// The state of a closed item.
pub const STATE_CLOSED: &'static str = "closed";

/// A repository and the number of items that belong to it.
#[derive(Clone, Debug, PartialEq, Eq)]
pub struct RepositoryCount {
    pub name: String,
    pub count: usize,
}

/// What a [`RepositoryCount`] holds, as mathematical values.
pub struct RepositoryCountView {
    pub name: Seq<char>,
    pub count: nat,
}

impl View for RepositoryCount {
    type V = RepositoryCountView;

    open spec fn view(&self) -> RepositoryCountView {
        RepositoryCountView { name: self.name@, count: self.count as nat }
    }
}

impl DeepView for RepositoryCount {
    type V = RepositoryCountView;

    open spec fn deep_view(&self) -> RepositoryCountView {
        self@
    }
}

/// The counts derived from the pull requests and issues of one run.
#[derive(Clone, Debug, PartialEq, Eq)]
pub struct ActivityStatistics {
    pub pr_total: usize,
    pub pr_merged: usize,
    pub pr_open: usize,
    pub pr_closed: usize,
    pub issue_total: usize,
    pub issue_open: usize,
    pub issue_closed: usize,
    pub repositories: Vec<RepositoryCount>,
}

/// What an [`ActivityStatistics`] holds, as mathematical values.
pub struct ActivityStatisticsView {
    pub pr_total: nat,
    pub pr_merged: nat,
    pub pr_open: nat,
    pub pr_closed: nat,
    pub issue_total: nat,
    pub issue_open: nat,
    pub issue_closed: nat,
    pub repositories: Seq<RepositoryCountView>,
}

impl View for ActivityStatistics {
    type V = ActivityStatisticsView;

    open spec fn view(&self) -> ActivityStatisticsView {
        ActivityStatisticsView {
            pr_total: self.pr_total as nat,
            pr_merged: self.pr_merged as nat,
            pr_open: self.pr_open as nat,
            pr_closed: self.pr_closed as nat,
            issue_total: self.issue_total as nat,
            issue_open: self.issue_open as nat,
            issue_closed: self.issue_closed as nat,
            repositories: self.repositories.deep_view(),
        }
    }
}

/// The test "this item's state is exactly `state`": case-sensitive, with no
/// trimming.
pub open spec fn in_state(state: Seq<char>) -> spec_fn(ActivityItemView) -> bool {
    |item: ActivityItemView| item.state == state
}

/// How many of the items are in the given state.
pub open spec fn count_in_state(items: Seq<ActivityItemView>, state: Seq<char>) -> nat {
    items.filter(in_state(state)).len()
}

/// The repositories of the items, one entry per item, in the items' order.
pub open spec fn repository_names(items: Seq<ActivityItemView>) -> Seq<Seq<char>> {
    items.map_values(|item: ActivityItemView| item.repository)
}

/// The test "this name is `name`".
pub open spec fn is_name(name: Seq<char>) -> spec_fn(Seq<char>) -> bool {
    |other: Seq<char>| other == name
}

/// How often `name` occurs among `names`.
pub open spec fn occurrences(names: Seq<Seq<char>>, name: Seq<char>) -> nat {
    names.filter(is_name(name)).len()
}

/// The least index at which `name` occurs among `names`, or the length of
/// `names` where it does not occur.
pub open spec fn first_index(names: Seq<Seq<char>>, name: Seq<char>) -> int
    decreases names.len(),
{
    if names.len() == 0 {
        0
    } else {
        let earlier = first_index(names.drop_last(), name);
        if earlier < names.len() - 1 {
            earlier
        } else if names.last() == name {
            names.len() - 1
        } else {
            names.len() as int
        }
    }
}

/// Whether one of the entries is for the repository `name`.
pub open spec fn has_entry(counts: Seq<RepositoryCountView>, name: Seq<char>) -> bool {
    exists|i: int| 0 <= i < counts.len() && (#[trigger] counts[i]).name == name
}

/// Every entry names a repository that occurs among `names`, with the number
/// of its occurrences, and every name that occurs has an entry.
pub open spec fn counts_names(names: Seq<Seq<char>>, counts: Seq<RepositoryCountView>) -> bool {
    &&& forall|i: int|
        0 <= i < counts.len() ==> {
            &&& first_index(names, (#[trigger] counts[i]).name) < names.len()
            &&& counts[i].count == occurrences(names, counts[i].name)
        }
    &&& forall|p: int| 0 <= p < names.len() ==> has_entry(counts, #[trigger] names[p])
}

/// The entries stand in the order in which their repositories were first
/// seen.
pub open spec fn in_encounter_order(
    names: Seq<Seq<char>>,
    counts: Seq<RepositoryCountView>,
) -> bool {
    forall|i: int, j: int|
        0 <= i < j < counts.len() ==> first_index(names, (#[trigger] counts[i]).name)
            < first_index(names, (#[trigger] counts[j]).name)
}

/// Whether entry `a` stands before entry `b` in the ranking: the larger count
/// first, and of two equal counts the repository that was seen first.
pub open spec fn ranks_before(
    names: Seq<Seq<char>>,
    a: RepositoryCountView,
    b: RepositoryCountView,
) -> bool {
    a.count > b.count || (a.count == b.count && first_index(names, a.name) < first_index(
        names,
        b.name,
    ))
}

/// `ranking` is the per-repository count of `names`: one entry for each
/// repository that occurs, with the number of its occurrences, sorted by
/// descending count, ties in the order of first occurrence.
pub open spec fn is_ranking(names: Seq<Seq<char>>, ranking: Seq<RepositoryCountView>) -> bool {
    &&& counts_names(names, ranking)
    &&& forall|i: int, j: int|
        0 <= i < j < ranking.len() ==> ranks_before(names, #[trigger] ranking[i], #[trigger] ranking[j])
}

/// `stats` is the statistics of the given pull requests and issues. The
/// repositories are counted over the pull requests followed by the issues.
pub open spec fn is_statistics_of(
    stats: ActivityStatisticsView,
    prs: Seq<ActivityItemView>,
    issues: Seq<ActivityItemView>,
) -> bool {
    &&& stats.pr_total == prs.len()
    &&& stats.pr_merged == count_in_state(prs, STATE_MERGED@)
    &&& stats.pr_open == count_in_state(prs, STATE_OPEN@)
    &&& stats.pr_closed == count_in_state(prs, STATE_CLOSED@)
    &&& stats.issue_total == issues.len()
    &&& stats.issue_open == count_in_state(issues, STATE_OPEN@)
    &&& stats.issue_closed == count_in_state(issues, STATE_CLOSED@)
    &&& is_ranking(repository_names(prs) + repository_names(issues), stats.repositories)
}

/// What `first_index` returns: an index at which the name stands, with no
/// occurrence before it, or the length.
pub proof fn lemma_first_index(names: Seq<Seq<char>>, name: Seq<char>)
    ensures
        0 <= first_index(names, name) <= names.len(),
        first_index(names, name) < names.len() ==> names[first_index(names, name)] == name,
        forall|q: int| 0 <= q < first_index(names, name) ==> names[q] != name,
    decreases names.len(),
{
    if names.len() > 0 {
        lemma_first_index(names.drop_last(), name);
        assert forall|q: int| 0 <= q < first_index(names, name) implies names[q] != name by {
            if q < names.len() - 1 {
                assert(names.drop_last()[q] == names[q]);
            }
        }
    }
}

proof fn lemma_first_index_push(names: Seq<Seq<char>>, last: Seq<char>, name: Seq<char>)
    ensures
        first_index(names.push(last), name) == if first_index(names, name) < names.len() {
            first_index(names, name)
        } else if last == name {
            names.len() as int
        } else {
            names.len() as int + 1
        },
{
    assert(names.push(last).drop_last() =~= names);
    lemma_first_index(names, name);
}

proof fn lemma_occurrences_push(names: Seq<Seq<char>>, last: Seq<char>, name: Seq<char>)
    ensures
        occurrences(names.push(last), name) == occurrences(names, name) + if last == name {
            1int
        } else {
            0int
        },
        occurrences(names, name) <= names.len(),
{
    names.lemma_filter_len_push(is_name(name), last);
    names.lemma_filter_len(is_name(name));
}

proof fn lemma_absent(names: Seq<Seq<char>>, name: Seq<char>)
    requires
        forall|q: int| 0 <= q < names.len() ==> names[q] != name,
    ensures
        first_index(names, name) == names.len(),
        occurrences(names, name) == 0,
    decreases names.len(),
{
    if names.len() > 0 {
        lemma_absent(names.drop_last(), name);
        assert(names.drop_last().push(names.last()) =~= names);
        lemma_occurrences_push(names.drop_last(), names.last(), name);
    } else {
        reveal(Seq::filter);
    }
}

/// Counting one more occurrence of a repository that already has an entry.
proof fn lemma_tally_bump(
    names: Seq<Seq<char>>,
    counts: Seq<RepositoryCountView>,
    j: int,
    after: Seq<RepositoryCountView>,
)
    requires
        counts_names(names, counts),
        in_encounter_order(names, counts),
        0 <= j < counts.len(),
        after == counts.update(
            j,
            RepositoryCountView { name: counts[j].name, count: counts[j].count + 1 },
        ),
    ensures
        counts_names(names.push(counts[j].name), after),
        in_encounter_order(names.push(counts[j].name), after),
{
    let name = counts[j].name;
    let more = names.push(name);
    assert forall|i: int| 0 <= i < after.len() implies {
        &&& first_index(more, (#[trigger] after[i]).name) < more.len()
        &&& after[i].count == occurrences(more, after[i].name)
        &&& first_index(more, after[i].name) == first_index(names, counts[i].name)
    } by {
        lemma_first_index_push(names, name, counts[i].name);
        lemma_occurrences_push(names, name, counts[i].name);
        assert(after[i].name == counts[i].name);
        if i != j {
            if i < j {
                assert(first_index(names, counts[i].name) < first_index(names, counts[j].name));
            } else {
                assert(first_index(names, counts[j].name) < first_index(names, counts[i].name));
            }
        }
    }
    assert forall|p: int| 0 <= p < more.len() implies has_entry(after, #[trigger] more[p]) by {
        if p < names.len() {
            assert(has_entry(counts, names[p]));
            let i = choose|i: int| 0 <= i < counts.len() && (#[trigger] counts[i]).name == names[p];
            assert(after[i].name == more[p]);
        } else {
            assert(after[j].name == more[p]);
        }
    }
    assert forall|a: int, b: int| 0 <= a < b < after.len() implies first_index(
        more,
        (#[trigger] after[a]).name,
    ) < first_index(more, (#[trigger] after[b]).name) by {
        assert(first_index(names, counts[a].name) < first_index(names, counts[b].name));
    }
}

/// Counting the first occurrence of a repository that has no entry yet.
proof fn lemma_tally_append(
    names: Seq<Seq<char>>,
    counts: Seq<RepositoryCountView>,
    name: Seq<char>,
)
    requires
        counts_names(names, counts),
        in_encounter_order(names, counts),
        forall|i: int| 0 <= i < counts.len() ==> (#[trigger] counts[i]).name != name,
    ensures
        counts_names(names.push(name), counts.push(RepositoryCountView { name, count: 1 })),
        in_encounter_order(names.push(name), counts.push(RepositoryCountView { name, count: 1 })),
{
    let more = names.push(name);
    let after = counts.push(RepositoryCountView { name, count: 1 });
    assert forall|q: int| 0 <= q < names.len() implies names[q] != name by {
        assert(has_entry(counts, names[q]));
    }
    lemma_absent(names, name);
    lemma_first_index_push(names, name, name);
    lemma_occurrences_push(names, name, name);
    assert forall|i: int| 0 <= i < after.len() implies {
        &&& first_index(more, (#[trigger] after[i]).name) < more.len()
        &&& after[i].count == occurrences(more, after[i].name)
        &&& i < counts.len() ==> first_index(more, after[i].name) < names.len()
    } by {
        if i < counts.len() {
            assert(after[i] == counts[i]);
            lemma_first_index_push(names, name, counts[i].name);
            lemma_occurrences_push(names, name, counts[i].name);
        }
    }
    assert forall|p: int| 0 <= p < more.len() implies has_entry(after, #[trigger] more[p]) by {
        if p < names.len() {
            assert(has_entry(counts, names[p]));
            let i = choose|i: int| 0 <= i < counts.len() && (#[trigger] counts[i]).name == names[p];
            assert(after[i].name == more[p]);
        } else {
            assert(after[counts.len() as int].name == more[p]);
        }
    }
    assert forall|a: int, b: int| 0 <= a < b < after.len() implies first_index(
        more,
        (#[trigger] after[a]).name,
    ) < first_index(more, (#[trigger] after[b]).name) by {
        if b < counts.len() {
            assert(first_index(names, counts[a].name) < first_index(names, counts[b].name));
            lemma_first_index_push(names, name, counts[a].name);
            lemma_first_index_push(names, name, counts[b].name);
        }
    }
}

/// Where an entry stands in a ranking.
spec fn position(ranking: Seq<RepositoryCountView>, entry: RepositoryCountView) -> int {
    choose|j: int| 0 <= j < ranking.len() && ranking[j] == entry
}

proof fn lemma_entry_is_shared(
    names: Seq<Seq<char>>,
    a: Seq<RepositoryCountView>,
    b: Seq<RepositoryCountView>,
    i: int,
)
    requires
        is_ranking(names, a),
        is_ranking(names, b),
        0 <= i < a.len(),
    ensures
        0 <= position(b, a[i]) < b.len(),
        b[position(b, a[i])] == a[i],
{
    lemma_first_index(names, a[i].name);
    let p = first_index(names, a[i].name);
    assert(has_entry(b, names[p]));
    let j = choose|j: int| 0 <= j < b.len() && (#[trigger] b[j]).name == names[p];
    assert(b[j].count == a[i].count);
    assert(b[j] == a[i]);
}

proof fn lemma_positions_ascend(
    names: Seq<Seq<char>>,
    a: Seq<RepositoryCountView>,
    b: Seq<RepositoryCountView>,
    i: int,
    j: int,
)
    requires
        is_ranking(names, a),
        is_ranking(names, b),
        0 <= i < j < a.len(),
    ensures
        position(b, a[i]) < position(b, a[j]),
{
    lemma_entry_is_shared(names, a, b, i);
    lemma_entry_is_shared(names, a, b, j);
    let at_i = position(b, a[i]);
    let at_j = position(b, a[j]);
    assert(ranks_before(names, a[i], a[j]));
    if at_i > at_j {
        assert(ranks_before(names, b[at_j], b[at_i]));
    }
}

proof fn lemma_position_not_before(
    names: Seq<Seq<char>>,
    a: Seq<RepositoryCountView>,
    b: Seq<RepositoryCountView>,
    i: int,
)
    requires
        is_ranking(names, a),
        is_ranking(names, b),
        0 <= i < a.len(),
    ensures
        i <= position(b, a[i]) < b.len(),
    decreases i,
{
    lemma_entry_is_shared(names, a, b, i);
    if i > 0 {
        lemma_position_not_before(names, a, b, i - 1);
        lemma_positions_ascend(names, a, b, i - 1, i);
    }
}

proof fn lemma_position_not_behind(
    names: Seq<Seq<char>>,
    a: Seq<RepositoryCountView>,
    b: Seq<RepositoryCountView>,
    i: int,
)
    requires
        is_ranking(names, a),
        is_ranking(names, b),
        a.len() == b.len(),
        0 <= i < a.len(),
    ensures
        position(b, a[i]) <= i,
    decreases a.len() - i,
{
    lemma_entry_is_shared(names, a, b, i);
    if i + 1 < a.len() {
        lemma_position_not_behind(names, a, b, i + 1);
        lemma_positions_ascend(names, a, b, i, i + 1);
    }
}

/// The ranking of a sequence of names is unique: being a ranking leaves no
/// choice, neither of the entries nor of their order.
pub proof fn lemma_ranking_unique(
    names: Seq<Seq<char>>,
    a: Seq<RepositoryCountView>,
    b: Seq<RepositoryCountView>,
)
    requires
        is_ranking(names, a),
        is_ranking(names, b),
    ensures
        a == b,
{
    if a.len() > 0 {
        lemma_position_not_before(names, a, b, a.len() - 1);
    }
    if b.len() > 0 {
        lemma_position_not_before(names, b, a, b.len() - 1);
    }
    assert(a.len() == b.len());
    assert forall|i: int| 0 <= i < a.len() implies a[i] == b[i] by {
        lemma_position_not_before(names, a, b, i);
        lemma_position_not_behind(names, a, b, i);
        lemma_entry_is_shared(names, a, b, i);
    }
    assert(a =~= b);
}

/// The statistics of a run are unique: being the statistics of the given
/// pull requests and issues leaves no choice.
pub proof fn lemma_statistics_unique(
    a: ActivityStatisticsView,
    b: ActivityStatisticsView,
    prs: Seq<ActivityItemView>,
    issues: Seq<ActivityItemView>,
)
    requires
        is_statistics_of(a, prs, issues),
        is_statistics_of(b, prs, issues),
    ensures
        a == b,
{
    lemma_ranking_unique(
        repository_names(prs) + repository_names(issues),
        a.repositories,
        b.repositories,
    );
}

/// Counts the items that are in the given state.
pub fn count_state(items: &Vec<ActivityItem>, state: &str) -> (n: usize)
    ensures
        n == count_in_state(items.deep_view(), state@),
        n <= items.len(),
{
    let wanted = String::from_str(state);
    let ghost views = items.deep_view();
    let mut n: usize = 0;
    let mut i: usize = 0;
    proof {
        reveal(Seq::filter);
        assert(views.take(0) =~= Seq::<ActivityItemView>::empty());
    }
    while i < items.len()
        invariant
            i <= items.len(),
            views == items.deep_view(),
            wanted@ == state@,
            n == count_in_state(views.take(i as int), state@),
            n <= i,
        decreases items.len() - i,
    {
        proof {
            assert(views.take(i + 1) =~= views.take(i as int).push(views[i as int]));
            views.take(i as int).lemma_filter_len_push(in_state(state@), views[i as int]);
            assert(views[i as int].state == items[i as int].state@);
        }
        if items[i].state == wanted {
            n = n + 1;
        }
        i = i + 1;
    }
    proof {
        assert(views.take(items.len() as int) =~= views);
    }
    n
}

/// Adds the repositories of `items` to a tally that covers `seen`.
fn tally_into(
    tally: &mut Vec<RepositoryCount>,
    items: &Vec<ActivityItem>,
    Ghost(seen): Ghost<Seq<Seq<char>>>,
)
    requires
        counts_names(seen, old(tally).deep_view()),
        in_encounter_order(seen, old(tally).deep_view()),
        seen.len() + items.len() <= usize::MAX,
    ensures
        counts_names(seen + repository_names(items.deep_view()), final(tally).deep_view()),
        in_encounter_order(seen + repository_names(items.deep_view()), final(tally).deep_view()),
{
    let ghost names = repository_names(items.deep_view());
    let mut k: usize = 0;
    proof {
        assert(seen + names.take(0) =~= seen);
    }
    while k < items.len()
        invariant
            k <= items.len(),
            names == repository_names(items.deep_view()),
            seen.len() + items.len() <= usize::MAX,
            counts_names(seen + names.take(k as int), tally.deep_view()),
            in_encounter_order(seen + names.take(k as int), tally.deep_view()),
        decreases items.len() - k,
    {
        let ghost done = seen + names.take(k as int);
        let ghost before = tally.deep_view();
        let name = &items[k].repository.name_with_owner;
        assert(name@ == names[k as int]);
        let mut j: usize = 0;
        while j < tally.len() && !(tally[j].name == *name)
            invariant
                j <= tally.len(),
                forall|i: int| 0 <= i < j ==> (#[trigger] tally.deep_view()[i]).name != name@,
            decreases tally.len() - j,
        {
            j = j + 1;
        }
        if j < tally.len() {
            let count = tally[j].count;
            proof {
                assert(before[j as int].name == name@);
                assert(before[j as int].count == count);
                lemma_occurrences_push(done, name@, name@);
                assert(done.len() <= seen.len() + items.len());
            }
            tally.set(j, RepositoryCount { name: name.clone(), count: count + 1 });
            proof {
                assert(tally.deep_view() =~= before.update(
                    j as int,
                    RepositoryCountView { name: before[j as int].name, count: before[j as int].count + 1 },
                ));
                lemma_tally_bump(done, before, j as int, tally.deep_view());
            }
        } else {
            tally.push(RepositoryCount { name: name.clone(), count: 1 });
            proof {
                assert(tally.deep_view() =~= before.push(
                    RepositoryCountView { name: name@, count: 1 },
                ));
                lemma_tally_append(done, before, name@);
            }
        }
        proof {
            assert(seen + names.take(k + 1) =~= done.push(name@));
        }
        k = k + 1;
    }
    proof {
        assert(names.take(items.len() as int) =~= names);
    }
}

/// Sorts a tally that stands in encounter order into the ranking: each entry
/// is placed behind every entry that counts at least as much.
fn rank(tally: &Vec<RepositoryCount>, Ghost(names): Ghost<Seq<Seq<char>>>) -> (ranking: Vec<
    RepositoryCount,
>)
    requires
        counts_names(names, tally.deep_view()),
        in_encounter_order(names, tally.deep_view()),
    ensures
        is_ranking(names, ranking.deep_view()),
{
    let ghost source = tally.deep_view();
    let mut ranking: Vec<RepositoryCount> = Vec::new();
    // `origin[i]` is where entry `i` of the ranking stood in the tally, and
    // `place[j]` is where entry `j` of the tally stands in the ranking.
    let ghost mut origin: Seq<int> = Seq::empty();
    let ghost mut place: Seq<int> = Seq::empty();
    let mut k: usize = 0;
    while k < tally.len()
        invariant
            k <= tally.len(),
            source == tally.deep_view(),
            counts_names(names, source),
            in_encounter_order(names, source),
            ranking.len() == k,
            origin.len() == k,
            place.len() == k,
            forall|i: int|
                0 <= i < k ==> 0 <= #[trigger] origin[i] < k && ranking.deep_view()[i]
                    == source[origin[i]],
            forall|j: int| 0 <= j < k ==> 0 <= #[trigger] place[j] < k && origin[place[j]] == j,
            forall|i: int, j: int|
                0 <= i < j < k ==> ranks_before(
                    names,
                    #[trigger] ranking.deep_view()[i],
                    #[trigger] ranking.deep_view()[j],
                ),
        decreases tally.len() - k,
    {
        let ghost before = ranking.deep_view();
        let ghost old_origin = origin;
        let ghost old_place = place;
        let count = tally[k].count;
        let mut q: usize = 0;
        while q < ranking.len() && ranking[q].count >= count
            invariant
                q <= ranking.len(),
                before == ranking.deep_view(),
                forall|i: int| 0 <= i < q ==> (#[trigger] before[i]).count >= count,
            decreases ranking.len() - q,
        {
            q = q + 1;
        }
        ranking.insert(q, RepositoryCount { name: tally[k].name.clone(), count });
        proof {
            let entry = source[k as int];
            let after = ranking.deep_view();
            assert(after =~= before.insert(q as int, entry));
            origin = old_origin.insert(q as int, k as int);
            place = Seq::new(
                (k + 1) as nat,
                |j: int|
                    if j == k {
                        q as int
                    } else if old_place[j] >= q {
                        old_place[j] + 1
                    } else {
                        old_place[j]
                    },
            );
            assert forall|i: int| 0 <= i < k + 1 implies 0 <= #[trigger] origin[i] < k + 1
                && after[i] == source[origin[i]] by {
                if i < q {
                    assert(origin[i] == old_origin[i]);
                } else if i > q {
                    assert(origin[i] == old_origin[i - 1]);
                    assert(after[i] == before[i - 1]);
                }
            }
            assert forall|j: int| 0 <= j < k + 1 implies 0 <= #[trigger] place[j] < k + 1
                && origin[place[j]] == j by {
                if j < k {
                    assert(origin[old_place[j]] == old_origin[old_place[j]] || old_place[j] >= q);
                }
            }
            assert forall|i: int, j: int| 0 <= i < j < k + 1 implies ranks_before(
                names,
                #[trigger] after[i],
                #[trigger] after[j],
            ) by {
                if j == q {
                    assert(after[i] == before[i]);
                    assert(before[i] == source[old_origin[i]]);
                    assert(first_index(names, source[old_origin[i]].name) < first_index(
                        names,
                        source[k as int].name,
                    ));
                } else if i == q {
                    assert(after[j] == before[j - 1]);
                    assert(before[q as int].count < count);
                    if j - 1 > q {
                        assert(ranks_before(names, before[q as int], before[j - 1]));
                    }
                } else {
                    let a = if i < q { i } else { i - 1 };
                    let b = if j < q { j } else { j - 1 };
                    assert(after[i] == before[a]);
                    assert(after[j] == before[b]);
                    assert(ranks_before(names, before[a], before[b]));
                }
            }
        }
        k = k + 1;
    }
    proof {
        let after = ranking.deep_view();
        assert forall|i: int| 0 <= i < after.len() implies {
            &&& first_index(names, (#[trigger] after[i]).name) < names.len()
            &&& after[i].count == occurrences(names, after[i].name)
        } by {
            assert(after[i] == source[origin[i]]);
        }
        assert forall|p: int| 0 <= p < names.len() implies has_entry(after, #[trigger] names[p]) by {
            assert(has_entry(source, names[p]));
            let j = choose|j: int| 0 <= j < source.len() && (#[trigger] source[j]).name == names[p];
            assert(after[place[j]] == source[origin[place[j]]]);
        }
    }
    ranking
}

/// Computes the statistics of one run: the totals, the counts by state, and
/// the repositories ranked by their number of items. States are compared as
/// they stand, case-sensitively. The repositories are counted over the pull
/// requests followed by the issues; of two repositories with the same count
/// the one that was met first comes first.
pub fn aggregate(prs: &Vec<ActivityItem>, issues: &Vec<ActivityItem>) -> (stats: ActivityStatistics)
    requires
        prs.len() + issues.len() <= usize::MAX,
    ensures
        is_statistics_of(stats@, prs.deep_view(), issues.deep_view()),
{
    let ghost pr_names = repository_names(prs.deep_view());
    let ghost names = pr_names + repository_names(issues.deep_view());
    let mut tally: Vec<RepositoryCount> = Vec::new();
    proof {
        assert(tally.deep_view() =~= Seq::<RepositoryCountView>::empty());
        assert(Seq::<Seq<char>>::empty() + pr_names =~= pr_names);
    }
    tally_into(&mut tally, prs, Ghost(Seq::empty()));
    tally_into(&mut tally, issues, Ghost(pr_names));
    let repositories = rank(&tally, Ghost(names));
    ActivityStatistics {
        pr_total: prs.len(),
        pr_merged: count_state(prs, STATE_MERGED),
        pr_open: count_state(prs, STATE_OPEN),
        pr_closed: count_state(prs, STATE_CLOSED),
        issue_total: issues.len(),
        issue_open: count_state(issues, STATE_OPEN),
        issue_closed: count_state(issues, STATE_CLOSED),
        repositories,
    }
}

/// Whether `state` is one of the three states that are counted for pull
/// requests.
pub open spec fn is_pull_request_state(state: Seq<char>) -> bool {
    state == STATE_MERGED@ || state == STATE_OPEN@ || state == STATE_CLOSED@
}

/// Whether `state` is one of the two states that are counted for issues.
pub open spec fn is_issue_state(state: Seq<char>) -> bool {
    state == STATE_OPEN@ || state == STATE_CLOSED@
}

proof fn lemma_states_differ()
    ensures
        STATE_MERGED@ != STATE_OPEN@,
        STATE_MERGED@ != STATE_CLOSED@,
        STATE_OPEN@ != STATE_CLOSED@,
{
    reveal_strlit("merged");
    reveal_strlit("open");
    reveal_strlit("closed");
    assert(STATE_MERGED@.len() == 6);
    assert(STATE_OPEN@.len() == 4);
    assert(STATE_MERGED@[0] == 'm');
    assert(STATE_CLOSED@[0] == 'c');
}

/// The counts by state never exceed the total, whatever the states are: no
/// item is counted under two states.
pub proof fn lemma_state_counts_bounded(items: Seq<ActivityItemView>)
    ensures
        count_in_state(items, STATE_MERGED@) + count_in_state(items, STATE_OPEN@) + count_in_state(
            items,
            STATE_CLOSED@,
        ) <= items.len(),
        count_in_state(items, STATE_OPEN@) + count_in_state(items, STATE_CLOSED@) <= items.len(),
    decreases items.len(),
{
    lemma_states_differ();
    if items.len() == 0 {
        reveal(Seq::filter);
    } else {
        let rest = items.drop_last();
        lemma_state_counts_bounded(rest);
        assert(rest.push(items.last()) =~= items);
        rest.lemma_filter_len_push(in_state(STATE_MERGED@), items.last());
        rest.lemma_filter_len_push(in_state(STATE_OPEN@), items.last());
        rest.lemma_filter_len_push(in_state(STATE_CLOSED@), items.last());
    }
}

/// Where every pull request is merged, open or closed, the three counts add
/// up to the number of pull requests.
pub proof fn lemma_pull_request_counts_add_up(items: Seq<ActivityItemView>)
    requires
        forall|i: int| 0 <= i < items.len() ==> is_pull_request_state((#[trigger] items[i]).state),
    ensures
        count_in_state(items, STATE_MERGED@) + count_in_state(items, STATE_OPEN@) + count_in_state(
            items,
            STATE_CLOSED@,
        ) == items.len(),
    decreases items.len(),
{
    lemma_states_differ();
    if items.len() == 0 {
        reveal(Seq::filter);
    } else {
        let rest = items.drop_last();
        assert forall|i: int| 0 <= i < rest.len() implies is_pull_request_state(
            (#[trigger] rest[i]).state,
        ) by {
            assert(rest[i] == items[i]);
        }
        lemma_pull_request_counts_add_up(rest);
        assert(rest.push(items.last()) =~= items);
        assert(is_pull_request_state(items[items.len() - 1].state));
        rest.lemma_filter_len_push(in_state(STATE_MERGED@), items.last());
        rest.lemma_filter_len_push(in_state(STATE_OPEN@), items.last());
        rest.lemma_filter_len_push(in_state(STATE_CLOSED@), items.last());
    }
}

/// Where every issue is open or closed, the two counts add up to the number
/// of issues.
pub proof fn lemma_issue_counts_add_up(items: Seq<ActivityItemView>)
    requires
        forall|i: int| 0 <= i < items.len() ==> is_issue_state((#[trigger] items[i]).state),
    ensures
        count_in_state(items, STATE_OPEN@) + count_in_state(items, STATE_CLOSED@) == items.len(),
    decreases items.len(),
{
    lemma_states_differ();
    if items.len() == 0 {
        reveal(Seq::filter);
    } else {
        let rest = items.drop_last();
        assert forall|i: int| 0 <= i < rest.len() implies is_issue_state(
            (#[trigger] rest[i]).state,
        ) by {
            assert(rest[i] == items[i]);
        }
        lemma_issue_counts_add_up(rest);
        assert(rest.push(items.last()) =~= items);
        assert(is_issue_state(items[items.len() - 1].state));
        rest.lemma_filter_len_push(in_state(STATE_OPEN@), items.last());
        rest.lemma_filter_len_push(in_state(STATE_CLOSED@), items.last());
    }
}

/// The statistics of any run add up: for the pull requests
/// `merged + open + closed == total` where every state is one of the three,
/// and for the issues `open + closed == total` where every state is one of
/// the two. With no items at all every count is zero.
pub proof fn lemma_statistics_add_up(
    stats: ActivityStatisticsView,
    prs: Seq<ActivityItemView>,
    issues: Seq<ActivityItemView>,
)
    requires
        is_statistics_of(stats, prs, issues),
    ensures
        stats.pr_merged + stats.pr_open + stats.pr_closed <= stats.pr_total,
        stats.issue_open + stats.issue_closed <= stats.issue_total,
        (forall|i: int| 0 <= i < prs.len() ==> is_pull_request_state((#[trigger] prs[i]).state))
            ==> stats.pr_merged + stats.pr_open + stats.pr_closed == stats.pr_total,
        (forall|i: int| 0 <= i < issues.len() ==> is_issue_state((#[trigger] issues[i]).state))
            ==> stats.issue_open + stats.issue_closed == stats.issue_total,
        prs.len() == 0 && issues.len() == 0 ==> stats.pr_total == 0 && stats.pr_merged == 0
            && stats.pr_open == 0 && stats.pr_closed == 0 && stats.issue_total == 0
            && stats.issue_open == 0 && stats.issue_closed == 0 && stats.repositories.len() == 0,
{
    lemma_state_counts_bounded(prs);
    lemma_state_counts_bounded(issues);
    if forall|i: int| 0 <= i < prs.len() ==> is_pull_request_state((#[trigger] prs[i]).state) {
        lemma_pull_request_counts_add_up(prs);
    }
    if forall|i: int| 0 <= i < issues.len() ==> is_issue_state((#[trigger] issues[i]).state) {
        lemma_issue_counts_add_up(issues);
    }
    if prs.len() == 0 && issues.len() == 0 {
        let names = repository_names(prs) + repository_names(issues);
        assert(names.len() == 0);
        if stats.repositories.len() > 0 {
            lemma_first_index(names, stats.repositories[0].name);
        }
    }
}

} // verus!
