use plunder::merge::SortIterator;

fn drain(mut it: SortIterator<char>) -> Vec<(usize, char)> {
    let mut out = Vec::new();
    while let Some(item) = it.next() {
        out.push(item);
    }
    out
}

#[test]
fn merge_is_ascending() {
    let it = SortIterator::new(vec![
        vec![(0, 'a'), (4, 'b'), (9, 'c')],
        vec![(1, 'x'), (2, 'y'), (10, 'z')],
    ]);
    assert_eq!(
        drain(it),
        vec![(0, 'a'), (1, 'x'), (2, 'y'), (4, 'b'), (9, 'c'), (10, 'z')]
    );
}

#[test]
fn merge_ties_go_to_the_lower_track() {
    let it = SortIterator::new(vec![
        vec![(3, 'b')],
        vec![(1, 'p'), (3, 'q')],
        vec![(3, 'r'), (3, 's')],
        vec![],
    ]);
    assert_eq!(
        drain(it),
        vec![(1, 'p'), (3, 'b'), (3, 'q'), (3, 'r'), (3, 's')]
    );
}

#[test]
fn merge_of_nothing_is_empty() {
    assert_eq!(drain(SortIterator::new(vec![])), vec![]);
    assert_eq!(drain(SortIterator::new(vec![vec![], vec![]])), vec![]);
}
