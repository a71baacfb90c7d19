use f1clash_setup::compare::{compare_marks, CompareMark};

use CompareMark::{Best, Plain, Worst};

#[test]
fn highest_is_best_by_default() {
    assert_eq!(compare_marks(&[10, 30, 20], false), vec![Worst, Best, Plain]);
}

#[test]
fn lowest_is_best_for_pit_times() {
    assert_eq!(compare_marks(&[250, 230, 270], true), vec![Plain, Best, Worst]);
}

#[test]
fn ties_share_the_mark() {
    assert_eq!(compare_marks(&[5, 9, 9, 5], false), vec![Worst, Best, Best, Worst]);
}

#[test]
fn equal_row_is_unmarked() {
    assert_eq!(compare_marks(&[7, 7, 7], false), vec![Plain, Plain, Plain]);
    assert_eq!(compare_marks(&[7], true), vec![Plain]);
    assert_eq!(compare_marks(&[], true), Vec::<CompareMark>::new());
}
