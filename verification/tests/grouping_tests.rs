use std::collections::LinkedList;

use group_adjacent::grouping::{GroupAdjacent, GroupIterator};
use group_adjacent::predicate::{AdjacencyPredicate, LessOrEqual, LessThan};
use group_adjacent::source::{Source, VecCursor};

fn collect_all<S, P>(mut gi: GroupIterator<S, P>) -> Vec<Vec<S::Item>>
where
    S: Source,
    P: AdjacencyPredicate<S::Item>,
{
    let mut out = Vec::new();
    while let Some(g) = gi.next() {
        out.push(g.into_vec());
    }
    out
}

#[test]
fn map_and_filter_test() {
    let a = vec![1, 2, 3, 4, 0, 2, 3, 2, 1, 2, 3];

    let b = a.iter().map(|x| *x * 2 + 1).filter(|x| *x > 5);

    let c = b.collect::<Vec<_>>();

    assert_eq!(c, vec![7, 9, 7, 7]);
}

#[test]
fn take_test() {
    let a = vec![1, 2, 3, 4, 0, 2, 3, 2, 1, 2, 3];

    let b = a.iter().take(3);

    let c = b.collect::<Vec<_>>();

    assert_eq!(c, vec![&1, &2, &3]);
}

#[test]
fn group_iterator_test() {
    let a: Vec<i32> = vec![1, 2, 3, 4, 0, 2, 3, 2, 1, 2, 3];

    let b = VecCursor::new(a);

    let c = GroupIterator::new(b, LessOrEqual);

    let d = collect_all(c);

    assert_eq!(
        d,
        vec![vec![1, 2, 3, 4], vec![0, 2, 3], vec![2], vec![1, 2, 3]]
    );
}

#[test]
fn group_iterator_test_linked_list() {
    let mut a: LinkedList<i32> = LinkedList::new();
    a.push_back(1);
    a.push_back(2);
    a.push_back(3);
    a.push_back(4);
    a.push_back(0);
    a.push_back(2);
    a.push_back(3);
    a.push_back(2);
    a.push_back(1);
    a.push_back(2);
    a.push_back(3);

    let b: Vec<i32> = a.into_iter().collect();

    let c = GroupIterator::new(VecCursor::new(b), LessOrEqual);

    let d = collect_all(c);

    assert_eq!(
        d,
        vec![vec![1, 2, 3, 4], vec![0, 2, 3], vec![2], vec![1, 2, 3]]
    );
}

#[test]
fn group_iterator_test_reversed() {
    let a: Vec<i32> = vec![1, 2, 3, 4, 0, 2, 3, 2, 1, 2, 3];

    let b: Vec<i32> = a.iter().rev().copied().collect();

    let c = GroupIterator::new(VecCursor::new(b), LessOrEqual);

    let d = collect_all(c);

    assert_eq!(
        d,
        vec![
            vec![3],
            vec![2],
            vec![1, 2, 3],
            vec![2],
            vec![0, 4],
            vec![3],
            vec![2],
            vec![1],
        ]
    );
}

#[test]
fn group_iterator_test_2() {
    let a: Vec<i32> = vec![1, 2, 3, 4, 0, 2, 3, 2, 1, 2, 3];

    let b = collect_all(VecCursor::new(a).group_adjacent(LessOrEqual));

    assert_eq!(
        b,
        vec![vec![1, 2, 3, 4], vec![0, 2, 3], vec![2], vec![1, 2, 3]]
    );
}

#[test]
fn group_iterator_test_3() {
    let a: Vec<i32> = vec![1, 2, 2, 3, 1, 2, 0, 4, 5, 2];

    let b = collect_all(VecCursor::new(a).group_adjacent(LessOrEqual));

    assert_eq!(b, vec![vec![1, 2, 2, 3], vec![1, 2], vec![0, 4, 5], vec![2]]);
}

#[test]
fn t() {
    let a: Vec<i32> = vec![1, 2, 3];

    let cycled: Vec<i32> = a.iter().cycle().take(6).copied().collect();

    let b = collect_all(VecCursor::new(cycled).group_adjacent(LessOrEqual));

    assert_eq!(b, vec![vec![1, 2, 3], vec![1, 2, 3]]);
}

#[test]
fn empty_source_test() {
    let a: Vec<i32> = vec![];

    let mut c = VecCursor::new(a).group_adjacent(LessOrEqual);

    assert!(c.next().is_none());
    assert!(c.next().is_none());
}

#[test]
fn single_element_test() {
    let a: Vec<i32> = vec![5];

    let mut c = VecCursor::new(a).group_adjacent(LessOrEqual);

    let first = c.next().expect("one group").into_vec();
    assert_eq!(first, vec![5]);
    assert!(c.next().is_none());
}

#[test]
fn exhaustion_idempotent_test() {
    let a: Vec<i32> = vec![2, 1];

    let mut c = VecCursor::new(a).group_adjacent(LessOrEqual);

    assert_eq!(c.next().expect("first group").into_vec(), vec![2]);
    assert_eq!(c.next().expect("second group").into_vec(), vec![1]);
    assert!(c.next().is_none());
    assert!(c.next().is_none());
    assert!(c.next().is_none());
}

#[test]
fn adjacent_equal_values_test() {
    let a: Vec<i32> = vec![1, 1];

    let lax = collect_all(VecCursor::new(a.clone()).group_adjacent(LessOrEqual));
    assert_eq!(lax, vec![vec![1, 1]]);

    let strict = collect_all(VecCursor::new(a).group_adjacent(LessThan));
    assert_eq!(strict, vec![vec![1], vec![1]]);
}

#[test]
fn strict_less_test() {
    let a: Vec<i32> = vec![1, 2, 3, 4, 0, 2, 3, 2, 1, 2, 3];

    let b = collect_all(VecCursor::new(a).group_adjacent(LessThan));

    assert_eq!(
        b,
        vec![vec![1, 2, 3, 4], vec![0, 2, 3], vec![2], vec![1, 2, 3]]
    );
}

#[test]
fn always_grouped_test() {
    let a: Vec<i32> = vec![1, 1, 2, 2, 3];

    let b = collect_all(VecCursor::new(a).group_adjacent(LessOrEqual));

    assert_eq!(b, vec![vec![1, 1, 2, 2, 3]]);
}

#[test]
fn all_singletons_test() {
    let a: Vec<i32> = vec![5, 4, 3, 2, 1];

    let b = collect_all(VecCursor::new(a).group_adjacent(LessOrEqual));

    assert_eq!(b, vec![vec![5], vec![4], vec![3], vec![2], vec![1]]);
}

#[test]
fn concat_reproduces_input_test() {
    let a: Vec<i32> = vec![3, 1, 4, 1, 5, 9, 2, 6, 5, 3, 5];

    let groups = collect_all(VecCursor::new(a.clone()).group_adjacent(LessOrEqual));

    let concat: Vec<i32> = groups.into_iter().flatten().collect();
    assert_eq!(concat, a);
}

#[test]
fn group_is_lazy_after_advance_test() {
    let a: Vec<i32> = vec![1, 2, 3, 0, 7];

    let mut c = VecCursor::new(a).group_adjacent(LessOrEqual);

    let first = c.next().expect("first group");
    let second = c.next().expect("second group");
    assert!(c.next().is_none());

    // The groups were produced before being consumed; each still
    // yields its own run from its own duplicated cursor.
    assert_eq!(first.into_vec(), vec![1, 2, 3]);
    assert_eq!(second.into_vec(), vec![0, 7]);
}

#[test]
fn group_fork_independent_test() {
    let a: Vec<i32> = vec![4, 5, 6, 1];

    let mut c = VecCursor::new(a).group_adjacent(LessOrEqual);

    let mut first = c.next().expect("first group");
    assert_eq!(first.next(), Some(4));

    // A fork taken mid-run advances independently of the original.
    let fork = first.fork();
    assert_eq!(fork.into_vec(), vec![5, 6]);
    assert_eq!(first.into_vec(), vec![5, 6]);
}

#[test]
fn cycle_strict_test() {
    let a: Vec<i32> = vec![1, 2, 3];

    let cycled: Vec<i32> = a.iter().cycle().take(6).copied().collect();

    let b = collect_all(VecCursor::new(cycled).group_adjacent(LessThan));

    assert_eq!(b, vec![vec![1, 2, 3], vec![1, 2, 3]]);
}

#[test]
fn adapter_fork_test() {
    let a: Vec<i32> = vec![1, 2, 0, 3];

    let mut c = VecCursor::new(a).group_adjacent(LessOrEqual);
    assert_eq!(c.next().expect("first group").into_vec(), vec![1, 2]);

    // A duplicate of the adapter advances independently of the
    // original, from the shared position.
    let mut d = c.fork();
    assert_eq!(c.next().expect("from the original").into_vec(), vec![0, 3]);
    assert_eq!(d.next().expect("from the duplicate").into_vec(), vec![0, 3]);
    assert!(c.next().is_none());
    assert!(d.next().is_none());
}

#[test]
fn group_of_groups_test() {
    let a: Vec<i32> = vec![1, 2, 1, 3];

    let mut c = VecCursor::new(a).group_adjacent(LessOrEqual);

    // A produced group is itself a source, so it can be grouped again.
    let first = c.next().expect("first group");
    let regrouped = collect_all(first.group_adjacent(LessThan));
    assert_eq!(regrouped, vec![vec![1, 2]]);
}
