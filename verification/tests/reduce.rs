use flow::merge::{global_merge, merge_step};
use flow::reduce::{reduce_one_tick, reduce_ticks};

#[test]
fn empty_tick_yields_no_output() {
    assert_eq!(reduce_one_tick(&vec![]), None);
}

#[test]
fn tick_is_folded_in_order() {
    assert_eq!(reduce_one_tick(&vec![1, 2, 3]), Some(6));
    assert_eq!(reduce_one_tick(&vec![-5, 5, 7]), Some(7));
}

#[test]
fn grouping_does_not_change_the_tick_value() {
    let values: Vec<i128> = vec![3, 5, 2, 9];
    let whole = reduce_one_tick(&values).unwrap();
    for split in 1..values.len() {
        let left = reduce_one_tick(&values[..split].to_vec()).unwrap();
        let right = reduce_one_tick(&values[split..].to_vec()).unwrap();
        assert_eq!(left + right, whole);
    }
}

#[test]
fn one_partial_per_nonempty_tick() {
    let ticks: Vec<Vec<i128>> = vec![vec![1, 2], vec![], vec![3], vec![]];
    assert_eq!(reduce_ticks(&ticks), vec![3, 3]);
}

#[test]
fn merge_step_accumulates() {
    assert_eq!(merge_step(3, 5), 8);
    assert_eq!(merge_step(8, -2), 6);
}

#[test]
fn merge_is_order_independent() {
    let orders: Vec<Vec<i128>> = vec![
        vec![3, 5, 2],
        vec![3, 2, 5],
        vec![5, 3, 2],
        vec![5, 2, 3],
        vec![2, 3, 5],
        vec![2, 5, 3],
    ];
    for partials in orders {
        assert_eq!(global_merge(&partials), 10);
    }
}

#[test]
fn merge_of_nothing_is_empty_aggregate() {
    assert_eq!(global_merge(&vec![]), 0);
}
