//! Grouping a batch of records by category.
use vstd::prelude::*;

use crate::record::{
    category_of, classify, index_of, is_first_index, lemma_index_of, lemma_project_fields, project,
    RecordProcessingContext,
};
use crate::registry::rows_merged;

verus! {

/// A category with the projected rows that belong to it, as plain values.
pub type GroupView = (Seq<char>, Seq<Seq<Seq<char>>>);

/// The categories of a list of groups, in order.
pub open spec fn group_keys(groups: Seq<GroupView>) -> Seq<Seq<char>> {
    Seq::new(groups.len(), |i: int| groups[i].0)
}

/// Adds one projected row under `category`: to that category's group where
/// there is one, else to a new group at the end.
pub open spec fn add_row(groups: Seq<GroupView>, category: Seq<char>, row: Seq<Seq<char>>) -> Seq<
    GroupView,
> {
    match index_of(group_keys(groups), category) {
        Some(j) => groups.update(j, (category, groups[j].1.push(row))),
        None => groups.push((category, seq![row])),
    }
}

/// The groups of a batch: one per category, in order of first appearance,
/// each holding the projections of that category's records in input order.
pub open spec fn partition_of(batch: Seq<Seq<Seq<char>>>, split: int) -> Seq<GroupView>
    decreases batch.len(),
{
    if batch.len() == 0 {
        seq![]
    } else {
        add_row(
            partition_of(batch.drop_last(), split),
            category_of(batch.last(), split),
            project(batch.last(), split),
        )
    }
}

/// The projections of the records of `batch` whose category is `category`,
/// in input order.
pub open spec fn rows_of(batch: Seq<Seq<Seq<char>>>, split: int, category: Seq<char>) -> Seq<
    Seq<Seq<char>>,
>
    decreases batch.len(),
{
    if batch.len() == 0 {
        seq![]
    } else {
        let rest = rows_of(batch.drop_last(), split, category);
        if category_of(batch.last(), split) == category {
            rest.push(project(batch.last(), split))
        } else {
            rest
        }
    }
}

/// The number of rows over all groups.
pub open spec fn total_rows(groups: Seq<GroupView>) -> int
    decreases groups.len(),
{
    if groups.len() == 0 {
        0
    } else {
        total_rows(groups.drop_last()) + groups.last().1.len()
    }
}

proof fn lemma_total_rows_update(groups: Seq<GroupView>, j: int, g: GroupView)
    requires
        0 <= j < groups.len(),
        g.1.len() == groups[j].1.len() + 1,
    ensures
        total_rows(groups.update(j, g)) == total_rows(groups) + 1,
    decreases groups.len(),
{
    let u = groups.update(j, g);
    if j == groups.len() - 1 {
        assert(u.drop_last() =~= groups.drop_last());
    } else {
        assert(u.drop_last() =~= groups.drop_last().update(j, g));
        lemma_total_rows_update(groups.drop_last(), j, g);
    }
}

/// Partitioning covers the batch exactly: the categories of the groups are
/// distinct, every record's category has a group, each group holds exactly
/// the projections of the records of its category in input order, and the
/// groups hold as many rows together as the batch holds records.
pub proof fn lemma_partition_covers(batch: Seq<Seq<Seq<char>>>, split: int)
    ensures
        group_keys(partition_of(batch, split)).no_duplicates(),
        forall|i: int|
            0 <= i < batch.len() ==> group_keys(partition_of(batch, split)).contains(
                #[trigger] category_of(batch[i], split),
            ),
        forall|c: Seq<char>|
            !group_keys(partition_of(batch, split)).contains(c) ==> #[trigger] rows_of(
                batch,
                split,
                c,
            ).len() == 0,
        forall|j: int|
            0 <= j < partition_of(batch, split).len() ==> (#[trigger] partition_of(batch, split)[j]).1
                == rows_of(batch, split, partition_of(batch, split)[j].0),
        total_rows(partition_of(batch, split)) == batch.len(),
    decreases batch.len(),
{
    if batch.len() > 0 {
        let prev = batch.drop_last();
        lemma_partition_covers(prev, split);
        let g = partition_of(prev, split);
        let c = category_of(batch.last(), split);
        let r = project(batch.last(), split);
        let p = partition_of(batch, split);
        let keys = group_keys(g);
        assert(p == add_row(g, c, r));
        match index_of(keys, c) {
            Some(j) => {
                assert(is_first_index(keys, c, j)) by {
                    let t = choose|t: int| 0 <= t < keys.len() && keys[t] == c;
                    assert forall|k: int| 0 <= k < t implies keys[k] != c by {
                        assert(keys[k] != keys[t]);
                    }
                    lemma_index_of(keys, c, t);
                }
                assert forall|d: Seq<char>| !group_keys(p).contains(d) implies #[trigger] rows_of(
                    batch,
                    split,
                    d,
                ).len() == 0 by {
                    assert(group_keys(p) =~= keys);
                    assert(keys[j] == c);
                    assert(d != c);
                    assert(rows_of(prev, split, d).len() == 0);
                }
                assert(group_keys(p) =~= keys);
                lemma_total_rows_update(g, j, (c, g[j].1.push(r)));
                assert forall|k: int| 0 <= k < p.len() implies (#[trigger] p[k]).1 == rows_of(
                    batch,
                    split,
                    p[k].0,
                ) by {
                    if k != j {
                        assert(keys[k] != keys[j]);
                    }
                }
                assert forall|i: int| 0 <= i < batch.len() implies group_keys(p).contains(
                    #[trigger] category_of(batch[i], split),
                ) by {
                    if i < prev.len() {
                        assert(prev[i] == batch[i]);
                    } else {
                        assert(keys[j] == c);
                    }
                }
            },
            None => {
                assert(!keys.contains(c));
                let nk = group_keys(p);
                assert(nk =~= keys.push(c));
                assert(p.drop_last() =~= g);
                assert forall|a: int, b: int| 0 <= a < nk.len() && 0 <= b < nk.len() && a != b
                    implies nk[a] != nk[b] by {
                    if a < keys.len() && b < keys.len() {
                        assert(keys[a] != keys[b]);
                    } else if a < keys.len() {
                        assert(keys.contains(keys[a]));
                    } else {
                        assert(keys.contains(keys[b]));
                    }
                }
                assert forall|k: int| 0 <= k < p.len() implies (#[trigger] p[k]).1 == rows_of(
                    batch,
                    split,
                    p[k].0,
                ) by {
                    if k < g.len() {
                        assert(keys[k] == g[k].0);
                        assert(keys.contains(g[k].0));
                    } else {
                        assert(rows_of(prev, split, c).len() == 0);
                        assert(rows_of(batch, split, c) =~= seq![r]);
                    }
                }
                assert forall|d: Seq<char>| !nk.contains(d) implies #[trigger] rows_of(
                    batch,
                    split,
                    d,
                ).len() == 0 by {
                    assert(nk[keys.len() as int] == c);
                    if keys.contains(d) {
                        let t = choose|t: int| 0 <= t < keys.len() && keys[t] == d;
                        assert(nk[t] == d);
                    }
                    assert(d != c);
                    assert(rows_of(prev, split, d).len() == 0);
                }
                assert forall|i: int| 0 <= i < batch.len() implies nk.contains(
                    #[trigger] category_of(batch[i], split),
                ) by {
                    if i < prev.len() {
                        assert(prev[i] == batch[i]);
                        assert(keys.contains(category_of(prev[i], split)));
                        let t = choose|t: int| 0 <= t < keys.len() && keys[t] == category_of(prev[i], split);
                        assert(nk[t] == keys[t]);
                    } else {
                        assert(nk[keys.len() as int] == c);
                    }
                }
            },
        }
    }
}

proof fn lemma_rows_of_are_projections(batch: Seq<Seq<Seq<char>>>, split: int, category: Seq<char>)
    ensures
        forall|r: int|
            0 <= r < rows_of(batch, split, category).len() ==> exists|i: int|
                0 <= i < batch.len() && #[trigger] rows_of(batch, split, category)[r] == project(
                    batch[i],
                    split,
                ),
    decreases batch.len(),
{
    if batch.len() > 0 {
        let prev = batch.drop_last();
        lemma_rows_of_are_projections(prev, split, category);
        let rows = rows_of(batch, split, category);
        assert forall|r: int| 0 <= r < rows.len() implies exists|i: int|
            0 <= i < batch.len() && #[trigger] rows[r] == project(batch[i], split) by {
            if r < rows_of(prev, split, category).len() {
                let i = choose|i: int|
                    0 <= i < prev.len() && #[trigger] rows_of(prev, split, category)[r] == project(
                        prev[i],
                        split,
                    );
                assert(prev[i] == batch[i]);
            } else {
                assert(rows[r] == project(batch[batch.len() - 1], split));
            }
        }
    }
}

/// A value that no record holds outside the split column appears in no
/// output row; in particular the split column's values, where no other
/// column holds them.
pub proof fn lemma_rows_omit_split_values(batch: Seq<Seq<Seq<char>>>, split: int, value: Seq<char>)
    requires
        forall|i: int, k: int|
            0 <= i < batch.len() && 0 <= k < batch[i].len() && k != split ==> #[trigger] batch[i][k]
                != value,
    ensures
        forall|j: int, r: int, f: int|
            0 <= j < partition_of(batch, split).len() && 0 <= r < partition_of(batch, split)[j].1.len()
                && 0 <= f < partition_of(batch, split)[j].1[r].len() ==> #[trigger] partition_of(
                batch,
                split,
            )[j].1[r][f] != value,
{
    let p = partition_of(batch, split);
    lemma_partition_covers(batch, split);
    assert forall|j: int, r: int, f: int|
        0 <= j < p.len() && 0 <= r < p[j].1.len() && 0 <= f < p[j].1[r].len() implies #[trigger] p[j].1[r][f]
        != value by {
        assert(p[j].1 == rows_of(batch, split, p[j].0));
        lemma_rows_of_are_projections(batch, split, p[j].0);
        let i = choose|i: int|
            0 <= i < batch.len() && #[trigger] rows_of(batch, split, p[j].0)[r] == project(
                batch[i],
                split,
            );
        lemma_project_fields(batch[i], split, f);
    }
}

/// The merges a batch's groups make: each category with its row count.
pub open spec fn merges_of(groups: Seq<GroupView>) -> Seq<(Seq<char>, nat)> {
    Seq::new(groups.len(), |i: int| (groups[i].0, groups[i].1.len()))
}

proof fn lemma_merges_of_distinct(groups: Seq<GroupView>, category: Seq<char>)
    requires
        group_keys(groups).no_duplicates(),
    ensures
        group_keys(groups).contains(category) ==> exists|j: int|
            0 <= j < groups.len() && groups[j].0 == category && rows_merged(merges_of(groups), category)
                == #[trigger] groups[j].1.len(),
        !group_keys(groups).contains(category) ==> rows_merged(merges_of(groups), category) == 0,
    decreases groups.len(),
{
    if groups.len() > 0 {
        let prev = groups.drop_last();
        let keys = group_keys(groups);
        assert(group_keys(prev) =~= keys.drop_last());
        assert(merges_of(groups).drop_last() =~= merges_of(prev));
        assert(group_keys(prev).no_duplicates()) by {
            assert forall|a: int, b: int|
                0 <= a < group_keys(prev).len() && 0 <= b < group_keys(prev).len() && a != b
                implies group_keys(prev)[a] != group_keys(prev)[b] by {
                assert(keys[a] != keys[b]);
            }
        }
        lemma_merges_of_distinct(prev, category);
        let last = groups.len() - 1;
        assert(merges_of(groups).last() == (groups[last].0, groups[last].1.len()));
        if groups[last].0 == category {
            assert(keys[last] == category);
            if group_keys(prev).contains(category) {
                let t = choose|t: int| 0 <= t < group_keys(prev).len() && group_keys(prev)[t] == category;
                assert(keys[t] == keys[last]);
            }
            assert(groups[last].1.len() == rows_merged(merges_of(groups), category));
        } else {
            assert(rows_merged(merges_of(groups), category) == rows_merged(merges_of(prev), category));
            if keys.contains(category) {
                let t = choose|t: int| 0 <= t < keys.len() && keys[t] == category;
                assert(group_keys(prev)[t] == category);
            }
            if group_keys(prev).contains(category) {
                let t = choose|t: int| 0 <= t < group_keys(prev).len() && group_keys(prev)[t] == category;
                assert(keys[t] == category);
            }
        }
    }
}

/// Merging a batch's groups appends, to each category, exactly the rows of
/// the batch's records of that category.
pub proof fn lemma_batch_merges_rows(batch: Seq<Seq<Seq<char>>>, split: int, category: Seq<char>)
    ensures
        rows_merged(merges_of(partition_of(batch, split)), category) == rows_of(
            batch,
            split,
            category,
        ).len(),
{
    let p = partition_of(batch, split);
    lemma_partition_covers(batch, split);
    lemma_merges_of_distinct(p, category);
    if group_keys(p).contains(category) {
        let j = choose|j: int|
            0 <= j < p.len() && p[j].0 == category && rows_merged(merges_of(p), category)
                == #[trigger] p[j].1.len();
        assert(p[j].1 == rows_of(batch, split, p[j].0));
    }
}

/// The projected rows of one category.
pub struct CategoryGroup {
    pub category: String,
    pub rows: Vec<Vec<String>>,
}

impl View for CategoryGroup {
    type V = GroupView;

    open spec fn view(&self) -> GroupView {
        (self.category@, self.rows.deep_view())
    }
}

/// The plain view of a list of groups.
pub open spec fn groups_view(groups: Seq<CategoryGroup>) -> Seq<GroupView> {
    Seq::new(groups.len(), |i: int| groups[i]@)
}

/// The position of the group of `category`, if there is one.
fn find_group(groups: &Vec<CategoryGroup>, category: &String) -> (r: Option<usize>)
    ensures
        r matches Some(j) ==> j < groups.len() && groups@[j as int].category@ == category@,
        r matches Some(j) ==> index_of(group_keys(groups_view(groups@)), category@) == Some(
            j as int,
        ),
        r is None ==> index_of(group_keys(groups_view(groups@)), category@) is None,
{
    let ghost keys = group_keys(groups_view(groups@));
    let mut j: usize = 0;
    while j < groups.len()
        invariant
            j <= groups.len(),
            keys == group_keys(groups_view(groups@)),
            forall|k: int| 0 <= k < j ==> keys[k] != category@,
        decreases groups.len() - j,
    {
        if groups[j].category == *category {
            proof {
                assert(is_first_index(keys, category@, j as int));
                lemma_index_of(keys, category@, j as int);
            }
            return Some(j);
        }
        j = j + 1;
    }
    proof {
        if keys.contains(category@) {
            let k = choose|k: int| 0 <= k < keys.len() && keys[k] == category@;
            assert(keys[k] != category@);
        }
    }
    None
}

/// Groups a batch by category: one group per category in order of first
/// appearance, each with the projected records of that category in input
/// order.
pub fn partition(batch: &Vec<Vec<String>>, context: &RecordProcessingContext) -> (r: Vec<
    CategoryGroup,
>)
    ensures
        groups_view(r@) == partition_of(batch.deep_view(), context.split_column_idx as int),
{
    let ghost split = context.split_column_idx as int;
    let ghost bs = batch.deep_view();
    let mut groups: Vec<CategoryGroup> = Vec::new();
    let mut i: usize = 0;
    while i < batch.len()
        invariant
            i <= batch.len(),
            bs == batch.deep_view(),
            split == context.split_column_idx as int,
            groups_view(groups@) == partition_of(bs.subrange(0, i as int), split),
        decreases batch.len() - i,
    {
        let (category, row) = classify(&batch[i], context);
        let ghost before = groups_view(groups@);
        proof {
            let sub = bs.subrange(0, i + 1);
            assert(sub.drop_last() =~= bs.subrange(0, i as int));
            assert(sub.last() == bs[i as int]);
        }
        match find_group(&groups, &category) {
            Some(j) => {
                let ghost old_groups = groups@;
                let ghost row_view = row.deep_view();
                groups[j].rows.push(row);
                assert(groups@[j as int].rows.deep_view() =~= old_groups[j as int].rows.deep_view().push(
                    row_view,
                ));
                assert(groups@[j as int].category == old_groups[j as int].category);
                assert(forall|k: int| 0 <= k < groups@.len() && k != j ==> groups@[k] == old_groups[k]);
                assert(groups_view(groups@) =~= before.update(
                    j as int,
                    (category@, before[j as int].1.push(row.deep_view())),
                ));
            },
            None => {
                let mut rows: Vec<Vec<String>> = Vec::new();
                rows.push(row);
                assert(rows.deep_view() =~= seq![row.deep_view()]);
                groups.push(CategoryGroup { category, rows });
                assert(groups_view(groups@) =~= before.push((category@, seq![row.deep_view()])));
            },
        }
        i = i + 1;
    }
    assert(bs.subrange(0, bs.len() as int) =~= bs);
    groups
}

} // verus!
