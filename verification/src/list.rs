//! The grouping engine: partitions the todos of a store into labelled
//! groups by project, context or status. A todo with several tags of
//! the grouped kind appears in every matching group; one with none
//! falls into the sentinel group of the mode. Within a group the
//! store's order is preserved.

use vstd::prelude::*;
use colored::Colorize;
use std::cmp::Ordering;
use crate::serde_date::{cmp_spec, display_of, SerdeDate};
use crate::text::{dec_digits, str_eq, u64_to_string, words_of};
use crate::Todo;

verus! {

/// The grouping modes a list request can ask for.
#[derive(Debug, Clone, Copy, PartialEq, Eq, Structural)]
pub enum GroupOption {
    Project,
    Context,
    Status,
}

/// One displayed group: a label and the positions (into the store) of
/// its member todos, in store order.
#[derive(Debug)]
pub struct Group {
    pub label: String,
    pub members: Vec<usize>,
}

/// How often `x` occurs in `s`.
pub open spec fn count_of<A>(s: Seq<A>, x: A) -> nat
    decreases s.len(),
{
    if s.len() == 0 {
        0
    } else {
        count_of(s.drop_last(), x) + (if s.last() == x {
            1nat
        } else {
            0nat
        })
    }
}

proof fn lemma_count_push<A>(s: Seq<A>, y: A, x: A)
    ensures
        count_of(s.push(y), x) == count_of(s, x) + (if y == x {
            1nat
        } else {
            0nat
        }),
{
    assert(s.push(y).drop_last() =~= s);
}

proof fn lemma_count_absent<A>(s: Seq<A>, x: A)
    requires
        !s.contains(x),
    ensures
        count_of(s, x) == 0,
    decreases s.len(),
{
    if s.len() > 0 {
        assert(!s.drop_last().contains(x)) by {
            if s.drop_last().contains(x) {
                let k = choose|k: int| 0 <= k < s.drop_last().len() && s.drop_last()[k] == x;
                assert(s[k] == x);
            }
        }
        lemma_count_absent(s.drop_last(), x);
        assert(s.last() != x) by {
            if s.last() == x {
                assert(s[s.len() - 1] == x);
            }
        }
    }
}

proof fn lemma_count_found<A>(s: Seq<A>, x: A)
    requires
        count_of(s, x) > 0,
    ensures
        s.contains(x),
    decreases s.len(),
{
    if s.len() > 0 {
        if s.last() == x {
            assert(s[s.len() - 1] == x);
        } else {
            lemma_count_found(s.drop_last(), x);
            let k = choose|k: int| 0 <= k < s.drop_last().len() && s.drop_last()[k] == x;
            assert(s[k] == x);
        }
    }
}

/// The tags of a todo that the grouping mode looks at: its projects,
/// its contexts, or its status label (none when the status is empty;
/// none at all in the ungrouped mode).
pub open spec fn mode_tags(t: Todo, grouping: Option<GroupOption>) -> Seq<Seq<char>> {
    match grouping {
        None => Seq::empty(),
        Some(GroupOption::Project) => t.projects@.map_values(|w: String| w@),
        Some(GroupOption::Context) => t.contexts@.map_values(|w: String| w@),
        Some(GroupOption::Status) => if t.status@.len() == 0 {
            Seq::empty()
        } else {
            seq![t.status@]
        },
    }
}

/// The label of the group that catches todos without tags of the
/// grouped kind.
pub open spec fn sentinel_label(grouping: Option<GroupOption>) -> Seq<char> {
    match grouping {
        None => "All"@,
        Some(GroupOption::Project) => "No projects"@,
        Some(GroupOption::Context) => "No contexts"@,
        Some(GroupOption::Status) => "No status"@,
    }
}

/// The labels of the groups a todo belongs to: one per tag of the
/// grouped kind (duplicates kept), or the sentinel label alone when it
/// has none.
pub open spec fn effective_labels(t: Todo, grouping: Option<GroupOption>) -> Seq<Seq<char>> {
    if mode_tags(t, grouping).len() == 0 {
        seq![sentinel_label(grouping)]
    } else {
        mode_tags(t, grouping)
    }
}

/// No two groups carry the same label.
pub open spec fn labels_distinct(groups: Seq<Group>) -> bool {
    forall|a: int, b: int| 0 <= a < b < groups.len() ==> groups[a].label@ != groups[b].label@
}

/// A member list holds positions below `n`, in nondecreasing order.
pub open spec fn members_wf(ms: Seq<usize>, n: int) -> bool {
    &&& forall|k: int| 0 <= k < ms.len() ==> ms[k] < n
    &&& forall|a: int, b: int| 0 <= a <= b < ms.len() ==> ms[a] <= ms[b]
}

/// The membership count of todo `i` in group `g` equals the number of
/// times the group's label occurs among the todo's effective labels.
pub open spec fn group_count_ok(
    groups: Seq<Group>,
    todos: Seq<Todo>,
    grouping: Option<GroupOption>,
    g: int,
    i: usize,
) -> bool {
    count_of(groups[g].members@, i) == count_of(
        effective_labels(todos[i as int], grouping),
        groups[g].label@,
    )
}

/// Every label of `eff` is the label of some group.
pub open spec fn labels_complete(groups: Seq<Group>, eff: Seq<Seq<char>>) -> bool {
    forall|k: int| 0 <= k < eff.len() ==> exists|g: int|
        0 <= g < groups.len() && groups[g].label@ == #[trigger] eff[k]
}

/// The labels a todo's row lands under, as owned strings.
fn labels_for(t: &Todo, grouping: Option<GroupOption>) -> (r: Vec<String>)
    ensures
        r@.map_values(|w: String| w@) == effective_labels(*t, grouping),
{
    let mut r: Vec<String> = Vec::new();
    match grouping {
        None => {
            r.push(String::from_str("All"));
        },
        Some(GroupOption::Project) => {
            if t.projects.len() == 0 {
                r.push(String::from_str("No projects"));
            } else {
                let mut k: usize = 0;
                while k < t.projects.len()
                    invariant
                        k <= t.projects@.len(),
                        t.projects@.len() > 0,
                        r@.len() == k,
                        forall|j: int| 0 <= j < k ==> r@[j]@ == t.projects@[j]@,
                    decreases t.projects@.len() - k,
                {
                    let s = t.projects[k].clone();
                    r.push(s);
                    k = k + 1;
                }
                proof {
                    assert(r@.map_values(|w: String| w@) =~~= t.projects@.map_values(
                        |w: String| w@,
                    ));
                }
            }
        },
        Some(GroupOption::Context) => {
            if t.contexts.len() == 0 {
                r.push(String::from_str("No contexts"));
            } else {
                let mut k: usize = 0;
                while k < t.contexts.len()
                    invariant
                        k <= t.contexts@.len(),
                        t.contexts@.len() > 0,
                        r@.len() == k,
                        forall|j: int| 0 <= j < k ==> r@[j]@ == t.contexts@[j]@,
                    decreases t.contexts@.len() - k,
                {
                    let s = t.contexts[k].clone();
                    r.push(s);
                    k = k + 1;
                }
                proof {
                    assert(r@.map_values(|w: String| w@) =~~= t.contexts@.map_values(
                        |w: String| w@,
                    ));
                }
            }
        },
        Some(GroupOption::Status) => {
            if t.status.as_str().unicode_len() == 0 {
                r.push(String::from_str("No status"));
            } else {
                r.push(t.status.clone());
            }
        },
    }
    proof {
        assert(r@.map_values(|w: String| w@) =~~= effective_labels(*t, grouping));
    }
    r
}

/// The position of the group carrying this label, if one exists yet.
fn find_group(groups: &Vec<Group>, label: &str) -> (r: Option<usize>)
    ensures
        match r {
            Some(g) => g < groups@.len() && groups@[g as int].label@ == label@,
            None => forall|g: int| 0 <= g < groups@.len() ==> groups@[g].label@ != label@,
        },
{
    let mut g: usize = 0;
    while g < groups.len()
        invariant
            g <= groups@.len(),
            forall|h: int| 0 <= h < g ==> groups@[h].label@ != label@,
        decreases groups@.len() - g,
    {
        if str_eq(groups[g].label.as_str(), label) {
            return Some(g);
        }
        g = g + 1;
    }
    None
}

/// Partitions a store into labelled groups for display. Labels are
/// distinct; a todo appears once in a group per matching tag, or once
/// in the mode's sentinel group when it has no tag of that kind;
/// within a group, store order is preserved. The order of the groups
/// themselves carries no meaning. The ungrouped mode always yields the
/// single group labelled `All`, even over an empty store.
pub fn todo_grouping(todos: &Vec<Todo>, grouping: Option<GroupOption>) -> (groups: Vec<Group>)
    ensures
        labels_distinct(groups@),
        forall|g: int| 0 <= g < groups@.len() ==> members_wf(
            #[trigger] groups@[g].members@,
            todos@.len() as int,
        ),
        grouping is Some ==> forall|g: int| 0 <= g < groups@.len() ==> (
        #[trigger] groups@[g].members@).len() >= 1,
        grouping is None ==> groups@.len() == 1 && groups@[0].label@ == sentinel_label(None),
        forall|g: int, i: usize| 0 <= g < groups@.len() && i < todos@.len()
            ==> #[trigger] group_count_ok(groups@, todos@, grouping, g, i),
        forall|i: int| 0 <= i < todos@.len() ==> labels_complete(
            groups@,
            effective_labels(#[trigger] todos@[i], grouping),
        ),
{
    let mut groups: Vec<Group> = Vec::new();
    if grouping.is_none() {
        groups.push(Group { label: String::from_str("All"), members: Vec::new() });
    }
    let mut i: usize = 0;
    while i < todos.len()
        invariant
            i <= todos@.len(),
            labels_distinct(groups@),
            forall|g: int| 0 <= g < groups@.len() ==> members_wf(
                #[trigger] groups@[g].members@,
                i as int,
            ),
            grouping is Some ==> forall|g: int| 0 <= g < groups@.len() ==> (
            #[trigger] groups@[g].members@).len() >= 1,
            grouping is None ==> groups@.len() == 1 && groups@[0].label@ == sentinel_label(None),
            forall|g: int, j: usize| 0 <= g < groups@.len() && j < i
                ==> #[trigger] group_count_ok(groups@, todos@, grouping, g, j),
            forall|j: int| 0 <= j < i ==> labels_complete(
                groups@,
                effective_labels(#[trigger] todos@[j], grouping),
            ),
        decreases todos@.len() - i,
    {
        let labels = labels_for(&todos[i], grouping);
        let ghost eff = effective_labels(todos@[i as int], grouping);
        let mut k: usize = 0;
        proof {
            assert forall|g: int| 0 <= g < groups@.len() implies count_of(
                #[trigger] groups@[g].members@,
                i,
            ) == 0 by {
                assert(!groups@[g].members@.contains(i)) by {
                    if groups@[g].members@.contains(i) {
                        let w = choose|w: int|
                            0 <= w < groups@[g].members@.len() && groups@[g].members@[w] == i;
                    }
                }
                lemma_count_absent(groups@[g].members@, i);
            }
            assert(eff.take(0) =~~= Seq::<Seq<char>>::empty());
        }
        while k < labels.len()
            invariant
                k <= labels@.len(),
                i < todos@.len(),
                labels@.map_values(|w: String| w@) == eff,
                eff == effective_labels(todos@[i as int], grouping),
                labels_distinct(groups@),
                forall|g: int| 0 <= g < groups@.len() ==> members_wf(
                    #[trigger] groups@[g].members@,
                    i + 1,
                ),
                grouping is Some ==> forall|g: int| 0 <= g < groups@.len() ==> (
                #[trigger] groups@[g].members@).len() >= 1,
                grouping is None ==> groups@.len() == 1 && groups@[0].label@ == sentinel_label(
                    None,
                ),
                forall|g: int, j: usize| 0 <= g < groups@.len() && j < i
                    ==> #[trigger] group_count_ok(groups@, todos@, grouping, g, j),
                forall|j: int| 0 <= j < i ==> labels_complete(
                    groups@,
                    effective_labels(#[trigger] todos@[j], grouping),
                ),
                forall|g: int| 0 <= g < groups@.len() ==> count_of(
                    #[trigger] groups@[g].members@,
                    i,
                ) == count_of(eff.take(k as int), groups@[g].label@),
                labels_complete(groups@, eff.take(k as int)),
            decreases labels@.len() - k,
        {
            let ghost prev_groups = groups@;
            let ghost lbl = eff[k as int];
            proof {
                assert(labels@.map_values(|w: String| w@)[k as int] == lbl);
                assert(eff.take(k + 1).drop_last() =~~= eff.take(k as int));
                assert(eff.take(k + 1).last() == lbl);
            }
            match find_group(&groups, labels[k].as_str()) {
                Some(g) => {
                    proof {
                        assert(count_of(eff.take(k + 1), prev_groups[g as int].label@) == count_of(
                            eff.take(k as int),
                            prev_groups[g as int].label@,
                        ) + 1);
                        assert forall|h: int| 0 <= h < prev_groups.len() && h != g implies count_of(
                            eff.take(k + 1),
                            #[trigger] prev_groups[h].label@,
                        ) == count_of(eff.take(k as int), prev_groups[h].label@) by {
                            assert(prev_groups[h].label@ != lbl);
                        }
                    }
                    let ghost old_members = groups@[g as int].members@;
                    groups[g].members.push(i);
                    proof {
                        assert(groups@ =~= prev_groups.update(
                            g as int,
                            Group { label: prev_groups[g as int].label, members: groups@[g as int].members },
                        ));
                        assert(groups@[g as int].members@ =~= old_members.push(i));
                        assert forall|h: int, j: usize| 0 <= h < groups@.len() && j < i
                            implies #[trigger] group_count_ok(groups@, todos@, grouping, h, j) by {
                            assert(group_count_ok(prev_groups, todos@, grouping, h, j));
                            if h == g {
                                lemma_count_push(old_members, i, j);
                            }
                        }
                        assert forall|h: int| 0 <= h < groups@.len() implies count_of(
                            #[trigger] groups@[h].members@,
                            i,
                        ) == count_of(eff.take(k + 1), groups@[h].label@) by {
                            if h == g {
                                lemma_count_push(old_members, i, i);
                            }
                        }
                        assert forall|j: int| 0 <= j < i implies labels_complete(
                            groups@,
                            effective_labels(#[trigger] todos@[j], grouping),
                        ) by {
                            let effj = effective_labels(todos@[j], grouping);
                            assert(labels_complete(prev_groups, effj));
                            assert forall|k2: int| 0 <= k2 < effj.len() implies exists|g2: int|
                                0 <= g2 < groups@.len() && groups@[g2].label@
                                    == #[trigger] effj[k2] by {
                                let gw = choose|g2: int|
                                    0 <= g2 < prev_groups.len() && prev_groups[g2].label@
                                        == effj[k2];
                                assert(groups@[gw].label@ == effj[k2]);
                            }
                        }
                        assert forall|k2: int| 0 <= k2 < eff.take(k + 1).len() implies exists|
                            g2: int,
                        |
                            0 <= g2 < groups@.len() && groups@[g2].label@ == #[trigger] eff.take(
                                k + 1,
                            )[k2] by {
                            if k2 < k {
                                let gw = choose|g2: int|
                                    0 <= g2 < prev_groups.len() && prev_groups[g2].label@
                                        == eff.take(k as int)[k2];
                                assert(groups@[gw].label@ == eff.take(k + 1)[k2]);
                            } else {
                                assert(groups@[g as int].label@ == eff.take(k + 1)[k2]);
                            }
                        }
                    }
                },
                None => {
                    proof {
                        // The label is new: no processed todo, and no earlier
                        // label of this todo, mentions it.
                        assert(!eff.take(k as int).contains(lbl)) by {
                            if eff.take(k as int).contains(lbl) {
                                let w = choose|w: int|
                                    0 <= w < k && eff.take(k as int)[w] == lbl;
                                assert(exists|g: int|
                                    0 <= g < groups@.len() && groups@[g].label@ == eff.take(
                                        k as int,
                                    )[w]);
                            }
                        }
                        lemma_count_absent(eff.take(k as int), lbl);
                    }
                    let mut ms: Vec<usize> = Vec::new();
                    ms.push(i);
                    let label = labels[k].clone();
                    proof {
                        assert(label@ == lbl);
                    }
                    groups.push(Group { label, members: ms });
                    proof {
                        assert(groups@.drop_last() =~= prev_groups);
                        assert(groups@.last().members@ =~= seq![i]);
                        assert(count_of(Seq::<usize>::empty(), i) == 0);
                        assert(count_of(seq![i], i) == 1) by {
                            assert(seq![i].drop_last() =~= Seq::<usize>::empty());
                            assert(seq![i].last() == i);
                        }
                        assert forall|x: usize| x != i implies count_of(seq![i], x) == 0 by {
                            assert(!seq![i].contains(x)) by {
                                if seq![i].contains(x) {
                                    let w = choose|w: int|
                                        0 <= w < seq![i].len() && seq![i][w] == x;
                                    assert(seq![i][w] == i);
                                }
                            }
                            lemma_count_absent(seq![i], x);
                        }
                        assert forall|h: int, j: usize| 0 <= h < groups@.len() && j < i
                            implies #[trigger] group_count_ok(groups@, todos@, grouping, h, j) by {
                            if h < prev_groups.len() {
                                assert(group_count_ok(prev_groups, todos@, grouping, h, j));
                            } else {
                                // the fresh group: no processed todo carries
                                // its label, else it would already exist
                                assert(!effective_labels(todos@[j as int], grouping).contains(
                                    lbl,
                                )) by {
                                    if effective_labels(todos@[j as int], grouping).contains(
                                        lbl,
                                    ) {
                                        let w = choose|w: int|
                                            0 <= w < effective_labels(
                                                todos@[j as int],
                                                grouping,
                                            ).len() && effective_labels(
                                                todos@[j as int],
                                                grouping,
                                            )[w] == lbl;
                                        assert(labels_complete(
                                            prev_groups,
                                            effective_labels(todos@[j as int], grouping),
                                        ));
                                        let gw = choose|g: int|
                                            0 <= g < prev_groups.len() && prev_groups[g].label@
                                                == effective_labels(
                                                todos@[j as int],
                                                grouping,
                                            )[w];
                                    }
                                }
                                lemma_count_absent(
                                    effective_labels(todos@[j as int], grouping),
                                    lbl,
                                );
                                lemma_count_absent(seq![i], j);
                            }
                        }
                        assert forall|h: int| 0 <= h < groups@.len() implies count_of(
                            #[trigger] groups@[h].members@,
                            i,
                        ) == count_of(eff.take(k + 1), groups@[h].label@) by {
                            if h < prev_groups.len() {
                                assert(groups@[h].label@ != lbl);
                            }
                        }
                        assert forall|j: int| 0 <= j < i implies labels_complete(
                            groups@,
                            effective_labels(#[trigger] todos@[j], grouping),
                        ) by {
                            let effj = effective_labels(todos@[j], grouping);
                            assert(labels_complete(prev_groups, effj));
                            assert forall|k2: int| 0 <= k2 < effj.len() implies exists|g2: int|
                                0 <= g2 < groups@.len() && groups@[g2].label@
                                    == #[trigger] effj[k2] by {
                                let gw = choose|g2: int|
                                    0 <= g2 < prev_groups.len() && prev_groups[g2].label@
                                        == effj[k2];
                                assert(groups@[gw].label@ == effj[k2]);
                            }
                        }
                        assert forall|k2: int| 0 <= k2 < eff.take(k + 1).len() implies exists|
                            g2: int,
                        |
                            0 <= g2 < groups@.len() && groups@[g2].label@ == #[trigger] eff.take(
                                k + 1,
                            )[k2] by {
                            if k2 < k {
                                let gw = choose|g2: int|
                                    0 <= g2 < prev_groups.len() && prev_groups[g2].label@
                                        == eff.take(k as int)[k2];
                                assert(groups@[gw].label@ == eff.take(k + 1)[k2]);
                            } else {
                                assert(groups@[groups@.len() - 1].label@ == eff.take(k + 1)[k2]);
                            }
                        }
                    }
                },
            }
            k = k + 1;
        }
        proof {
            assert(eff.take(eff.len() as int) =~~= eff);
            assert forall|g: int, j: usize| 0 <= g < groups@.len() && j < i + 1
                implies #[trigger] group_count_ok(groups@, todos@, grouping, g, j) by {}
        }
        i = i + 1;
    }
    groups
}

/// The total number of group memberships of todo `i`, summed over all
/// groups.
pub open spec fn total_count(groups: Seq<Group>, i: usize) -> nat
    decreases groups.len(),
{
    if groups.len() == 0 {
        0
    } else {
        total_count(groups.drop_last(), i) + count_of(groups.last().members@, i)
    }
}

/// Pairwise-distinct label sequences.
pub open spec fn seq_distinct(s: Seq<Seq<char>>) -> bool {
    forall|a: int, b: int| 0 <= a < b < s.len() ==> s[a] != s[b]
}

/// Sum over `labels` of how often each occurs in `eff`.
spec fn sum_label_counts(labels: Seq<Seq<char>>, eff: Seq<Seq<char>>) -> nat
    decreases labels.len(),
{
    if labels.len() == 0 {
        0
    } else {
        sum_label_counts(labels.drop_last(), eff) + count_of(eff, labels.last())
    }
}

proof fn lemma_sum_empty(labels: Seq<Seq<char>>)
    ensures
        sum_label_counts(labels, Seq::empty()) == 0,
    decreases labels.len(),
{
    if labels.len() > 0 {
        lemma_sum_empty(labels.drop_last());
    }
}

proof fn lemma_sum_push(labels: Seq<Seq<char>>, eff: Seq<Seq<char>>, x: Seq<char>)
    ensures
        sum_label_counts(labels, eff.push(x)) == sum_label_counts(labels, eff) + count_of(
            labels,
            x,
        ),
    decreases labels.len(),
{
    if labels.len() > 0 {
        lemma_sum_push(labels.drop_last(), eff, x);
        lemma_count_push(eff, x, labels.last());
    }
}

proof fn lemma_distinct_contains_count(labels: Seq<Seq<char>>, x: Seq<char>)
    requires
        seq_distinct(labels),
        labels.contains(x),
    ensures
        count_of(labels, x) == 1,
    decreases labels.len(),
{
    let last = labels.len() - 1;
    if labels.last() == x {
        assert(!labels.drop_last().contains(x)) by {
            if labels.drop_last().contains(x) {
                let w = choose|w: int|
                    0 <= w < labels.drop_last().len() && labels.drop_last()[w] == x;
                assert(labels[w] == labels[last]);
            }
        }
        lemma_count_absent(labels.drop_last(), x);
    } else {
        assert(labels.drop_last().contains(x)) by {
            let w = choose|w: int| 0 <= w < labels.len() && labels[w] == x;
            assert(labels.drop_last()[w] == x);
        }
        lemma_distinct_contains_count(labels.drop_last(), x);
    }
}

proof fn lemma_sum_counts_all(labels: Seq<Seq<char>>, eff: Seq<Seq<char>>)
    requires
        seq_distinct(labels),
        forall|k: int| 0 <= k < eff.len() ==> labels.contains(#[trigger] eff[k]),
    ensures
        sum_label_counts(labels, eff) == eff.len(),
    decreases eff.len(),
{
    if eff.len() == 0 {
        lemma_sum_empty(labels);
        assert(eff =~~= Seq::<Seq<char>>::empty());
    } else {
        let e0 = eff.drop_last();
        let x = eff.last();
        assert(forall|k: int| 0 <= k < e0.len() ==> labels.contains(#[trigger] e0[k]));
        lemma_sum_counts_all(labels, e0);
        assert(eff =~~= e0.push(x));
        lemma_sum_push(labels, e0, x);
        assert(labels.contains(x)) by {
            assert(eff[eff.len() - 1] == x);
        }
        lemma_distinct_contains_count(labels, x);
    }
}

proof fn lemma_total_is_sum(
    groups: Seq<Group>,
    eff: Seq<Seq<char>>,
    i: usize,
)
    requires
        forall|g: int| 0 <= g < groups.len() ==> count_of(#[trigger] groups[g].members@, i)
            == count_of(eff, groups[g].label@),
    ensures
        total_count(groups, i) == sum_label_counts(
            groups.map_values(|g: Group| g.label@),
            eff,
        ),
    decreases groups.len(),
{
    let labels = groups.map_values(|g: Group| g.label@);
    if groups.len() > 0 {
        let g0 = groups.drop_last();
        assert(forall|g: int| 0 <= g < g0.len() ==> count_of(#[trigger] g0[g].members@, i)
            == count_of(eff, g0[g].label@));
        lemma_total_is_sum(g0, eff, i);
        assert(g0.map_values(|g: Group| g.label@) =~~= labels.drop_last());
        assert(count_of(groups.last().members@, i) == count_of(eff, labels.last())) by {
            assert(groups[groups.len() - 1].label@ == labels.last());
        }
    }
}

/// The grouping round trip: across all groups, a todo is a member once
/// per tag of the grouped kind it carries — or exactly once, in the
/// sentinel group, when it carries none — and only of groups whose
/// label stands among its effective labels.
pub proof fn lemma_grouping_round_trip(
    groups: Seq<Group>,
    todos: Seq<Todo>,
    grouping: Option<GroupOption>,
    i: usize,
)
    requires
        i < todos.len(),
        labels_distinct(groups),
        forall|g: int, j: usize| 0 <= g < groups.len() && j < todos.len()
            ==> #[trigger] group_count_ok(groups, todos, grouping, g, j),
        labels_complete(groups, effective_labels(todos[i as int], grouping)),
    ensures
        total_count(groups, i) == effective_labels(todos[i as int], grouping).len(),
        forall|g: int| 0 <= g < groups.len() && count_of(#[trigger] groups[g].members@, i) > 0
            ==> effective_labels(todos[i as int], grouping).contains(groups[g].label@),
{
    let eff = effective_labels(todos[i as int], grouping);
    let labels = groups.map_values(|g: Group| g.label@);
    assert(seq_distinct(labels)) by {
        assert forall|a: int, b: int| 0 <= a < b < labels.len() implies labels[a] != labels[b] by {
            assert(groups[a].label@ != groups[b].label@);
        }
    }
    assert forall|k: int| 0 <= k < eff.len() implies labels.contains(#[trigger] eff[k]) by {
        let g = choose|g: int| 0 <= g < groups.len() && groups[g].label@ == eff[k];
        assert(labels[g] == eff[k]);
    }
    assert(forall|g: int| 0 <= g < groups.len() ==> count_of(#[trigger] groups[g].members@, i)
        == count_of(eff, groups[g].label@)) by {
        assert forall|g: int| 0 <= g < groups.len() implies count_of(
            #[trigger] groups[g].members@,
            i,
        ) == count_of(eff, groups[g].label@) by {
            assert(group_count_ok(groups, todos, grouping, g, i));
        }
    }
    lemma_total_is_sum(groups, eff, i);
    lemma_sum_counts_all(labels, eff);
    assert forall|g: int|
        0 <= g < groups.len() && count_of(#[trigger] groups[g].members@, i) > 0 implies eff.contains(
        groups[g].label@,
    ) by {
        lemma_count_found(eff, groups[g].label@);
    }
}

/// Relies on colored's `Colorize::purple`: the word styled for the
/// terminal; styling only ever adds characters around or inside the
/// text.
#[verifier::external_body]
fn paint_project(w: &str) -> (r: String)
    ensures
        r@.len() >= w@.len(),
{
    w.purple().to_string()
}

/// Relies on colored's `Colorize::green`: the word styled for the
/// terminal; styling only ever adds characters around or inside the
/// text.
#[verifier::external_body]
fn paint_context(w: &str) -> (r: String)
    ensures
        r@.len() >= w@.len(),
{
    w.green().to_string()
}

/// The words joined with single spaces.
pub open spec fn spaced_join(ws: Seq<Seq<char>>) -> Seq<char>
    decreases ws.len(),
{
    if ws.len() == 0 {
        Seq::empty()
    } else {
        spaced_join(ws.drop_last()) + (if ws.len() == 1 {
            Seq::<char>::empty()
        } else {
            " "@
        }) + ws.last()
    }
}

/// How a painted word list relates to the words of the subject: one
/// painted word per word, never shorter, and words carrying no sigil
/// pass through verbatim.
pub open spec fn colorized_words(ws: Seq<Seq<char>>, painted: Seq<Seq<char>>) -> bool {
    &&& painted.len() == ws.len()
    &&& forall|j: int| 0 <= j < ws.len() ==> (#[trigger] painted[j]).len() >= ws[j].len()
    &&& forall|j: int|
        0 <= j < ws.len() && ws[j].len() > 0 && ws[j][0] != '+' && ws[j][0] != '@'
            ==> #[trigger] painted[j] == ws[j]
}

/// The rendering of a subject: its words, each possibly styled,
/// joined with single spaces.
pub open spec fn colorized(s: Seq<char>, r: Seq<char>) -> bool {
    exists|painted: Seq<Seq<char>>|
        #[trigger] colorized_words(words_of(s), painted) && r == spaced_join(painted)
}

/// Styles the `+project` and `@context` words of a subject for the
/// terminal and joins everything back with single spaces.
pub fn colorize_subject(k: &String) -> (r: String)
    ensures
        colorized(k@, r@),
{
    let words = crate::text::split_words(k.as_str());
    let ghost ws = words@.map_values(|w: String| w@);
    let mut r = String::new();
    let ghost mut painted: Seq<Seq<char>> = Seq::empty();
    let mut j: usize = 0;
    while j < words.len()
        invariant
            j <= words@.len(),
            ws == words@.map_values(|w: String| w@),
            ws == words_of(k@),
            painted.len() == j,
            forall|h: int| 0 <= h < j ==> (#[trigger] painted[h]).len() >= ws[h].len(),
            forall|h: int|
                0 <= h < j && ws[h].len() > 0 && ws[h][0] != '+' && ws[h][0] != '@'
                    ==> #[trigger] painted[h] == ws[h],
            r@ == spaced_join(painted),
        decreases words@.len() - j,
    {
        let ghost prev = painted;
        if j > 0 {
            r.append(" ");
        }
        let w = words[j].as_str();
        let pw: String = if w.unicode_len() >= 1 {
            let c0 = w.get_char(0);
            if c0 == '+' {
                paint_project(w)
            } else if c0 == '@' {
                paint_context(w)
            } else {
                w.to_owned()
            }
        } else {
            w.to_owned()
        };
        r.append(pw.as_str());
        proof {
            painted = painted.push(pw@);
            assert(painted.drop_last() =~~= prev);
            assert(painted.last() == pw@);
            assert(r@ =~= spaced_join(painted));
        }
        j = j + 1;
    }
    proof {
        assert(colorized_words(words_of(k@), painted));
    }
    r
}

/// One displayed todo row, fully rendered but for terminal styling:
/// the flags say what the presentation layer should emphasize.
#[derive(Debug)]
pub struct RenderedRow {
    pub id_text: String,
    pub checkbox: String,
    pub due_text: String,
    pub status: String,
    pub subject: String,
    pub is_priority: bool,
    pub due_urgent: bool,
    pub notes: Vec<String>,
}

/// One displayed group: its title and its visible rows, in store
/// order.
#[derive(Debug)]
pub struct RenderedGroup {
    pub title: String,
    pub rows: Vec<RenderedRow>,
}

/// How a rendered row relates to its todo on a given day.
pub open spec fn row_matches(row: RenderedRow, t: Todo, today: SerdeDate, show_notes: bool) -> bool {
    &&& row.id_text@ == dec_digits(t.id as nat)
    &&& row.checkbox@ == (if t.completed {
        "[x]"@
    } else {
        "[ ]"@
    })
    &&& row.due_text@ == display_of(t.due.date)
    &&& row.status@ == t.status@
    &&& colorized(t.subject@, row.subject@)
    &&& row.is_priority == t.is_priority
    &&& row.due_urgent == (cmp_spec(t.due, today) != Ordering::Less)
    &&& (show_notes ==> row.notes@.map_values(|w: String| w@) == (match t.notes {
        Some(ns) => ns@.map_values(|w: String| w@),
        None => Seq::<Seq<char>>::empty(),
    }))
    &&& (!show_notes ==> row.notes@.len() == 0)
}

/// The members of a group whose todos are not archived, in order.
pub open spec fn visible_members(todos: Seq<Todo>, ms: Seq<usize>) -> Seq<usize>
    decreases ms.len(),
{
    if ms.len() == 0 {
        Seq::empty()
    } else {
        visible_members(todos, ms.drop_last()) + (if !todos[ms.last() as int].archived {
            seq![ms.last()]
        } else {
            Seq::empty()
        })
    }
}

/// Renders one row of a todo.
fn render_row(t: &Todo, today: &SerdeDate, show_notes: bool) -> (row: RenderedRow)
    requires
        t.due.wf(),
    ensures
        row_matches(row, *t, *today, show_notes),
{
    let notes: Vec<String> = if show_notes {
        match &t.notes {
            Some(ns) => {
                let mut copy: Vec<String> = Vec::new();
                let mut k: usize = 0;
                while k < ns.len()
                    invariant
                        k <= ns@.len(),
                        copy@.len() == k,
                        forall|h: int| 0 <= h < k ==> copy@[h]@ == ns@[h]@,
                    decreases ns@.len() - k,
                {
                    copy.push(ns[k].clone());
                    k = k + 1;
                }
                proof {
                    assert(copy@.map_values(|w: String| w@) =~~= ns@.map_values(|w: String| w@));
                }
                copy
            },
            None => Vec::new(),
        }
    } else {
        Vec::new()
    };
    proof {
        if notes@.len() == 0 {
            assert(notes@.map_values(|w: String| w@) =~~= Seq::<Seq<char>>::empty());
        }
    }
    let urgent = match t.due.cmp(today) {
        Ordering::Less => false,
        _ => true,
    };
    RenderedRow {
        id_text: u64_to_string(t.id),
        checkbox: if t.completed {
            String::from_str("[x]")
        } else {
            String::from_str("[ ]")
        },
        due_text: t.due.display_text(),
        status: t.status.clone(),
        subject: colorize_subject(&t.subject),
        is_priority: t.is_priority,
        due_urgent: urgent,
        notes,
    }
}

/// Renders the visible rows of each group: archived todos are skipped
/// silently, everything else keeps the group's order. The view layer
/// never mutates the store.
pub fn render_groups(
    todos: &Vec<Todo>,
    groups: &Vec<Group>,
    show_notes: bool,
    today: &SerdeDate,
) -> (r: Vec<RenderedGroup>)
    requires
        forall|i: int| 0 <= i < todos@.len() ==> (#[trigger] todos@[i]).due.wf(),
        forall|g: int| 0 <= g < groups@.len() ==> members_wf(
            #[trigger] groups@[g].members@,
            todos@.len() as int,
        ),
    ensures
        r@.len() == groups@.len(),
        forall|g: int| 0 <= g < groups@.len() ==> (#[trigger] r@[g]).title@ == groups@[g].label@,
        forall|g: int| 0 <= g < groups@.len() ==> ({
            let vis = visible_members(todos@, groups@[g].members@);
            &&& (#[trigger] r@[g]).rows@.len() == vis.len()
            &&& forall|k: int| 0 <= k < vis.len() ==> row_matches(
                #[trigger] r@[g].rows@[k],
                todos@[vis[k] as int],
                *today,
                show_notes,
            )
        }),
{
    let mut r: Vec<RenderedGroup> = Vec::new();
    let mut g: usize = 0;
    while g < groups.len()
        invariant
            g <= groups@.len(),
            forall|i: int| 0 <= i < todos@.len() ==> (#[trigger] todos@[i]).due.wf(),
            forall|h: int| 0 <= h < groups@.len() ==> members_wf(
                #[trigger] groups@[h].members@,
                todos@.len() as int,
            ),
            r@.len() == g,
            forall|h: int| 0 <= h < g ==> (#[trigger] r@[h]).title@ == groups@[h].label@,
            forall|h: int| 0 <= h < g ==> ({
                let vis = visible_members(todos@, groups@[h].members@);
                &&& (#[trigger] r@[h]).rows@.len() == vis.len()
                &&& forall|k: int| 0 <= k < vis.len() ==> row_matches(
                    #[trigger] r@[h].rows@[k],
                    todos@[vis[k] as int],
                    *today,
                    show_notes,
                )
            }),
        decreases groups@.len() - g,
    {
        let ms = &groups[g].members;
        let mut rows: Vec<RenderedRow> = Vec::new();
        let mut k: usize = 0;
        proof {
            assert(visible_members(todos@, ms@.take(0)) =~= Seq::<usize>::empty()) by {
                assert(ms@.take(0) =~= Seq::<usize>::empty());
            }
        }
        while k < ms.len()
            invariant
                k <= ms@.len(),
                ms@ == groups@[g as int].members@,
                g < groups@.len(),
                forall|i: int| 0 <= i < todos@.len() ==> (#[trigger] todos@[i]).due.wf(),
                members_wf(ms@, todos@.len() as int),
                ({
                    let vis = visible_members(todos@, ms@.take(k as int));
                    &&& rows@.len() == vis.len()
                    &&& forall|h: int| 0 <= h < vis.len() ==> row_matches(
                        #[trigger] rows@[h],
                        todos@[vis[h] as int],
                        *today,
                        show_notes,
                    )
                }),
            decreases ms@.len() - k,
        {
            let ghost prev_vis = visible_members(todos@, ms@.take(k as int));
            proof {
                assert(ms@.take(k + 1).drop_last() =~= ms@.take(k as int));
                assert(ms@.take(k + 1).last() == ms@[k as int]);
            }
            let idx = ms[k];
            if !todos[idx].archived {
                let row = render_row(&todos[idx], today, show_notes);
                proof {
                    assert(visible_members(todos@, ms@.take(k + 1)) =~= prev_vis.push(idx));
                }
                rows.push(row);
            } else {
                proof {
                    assert(visible_members(todos@, ms@.take(k + 1)) =~= prev_vis);
                }
            }
            k = k + 1;
        }
        proof {
            assert(ms@.take(ms@.len() as int) =~= ms@);
        }
        let title = groups[g].label.clone();
        r.push(RenderedGroup { title, rows });
        g = g + 1;
    }
    r
}

} // verus!
