use std::cell::RefCell;
use std::rc::Rc;

use drain_at_sorted_unchecked::drain_at_sorted_unchecked;
use drain_at_sorted_unchecked::DrainAtSortedUnchecked;

#[test]
fn rem_1_2_3_5_7() {
    let mut v = vec![0, 1, 2, 3, 4, 5, 6, 7, 8, 9];
    v.drain_at_sorted_unchecked(&[1, 2, 3, 5, 7]);
    assert_eq!(v, vec![0, 4, 6, 8, 9]);
}

#[test]
fn rem_0th() {
    let mut v = vec![0, 1, 2, 3, 4, 5, 6, 7, 8, 9];
    v.drain_at_sorted_unchecked(&[0]);
    assert_eq!(v, vec![1, 2, 3, 4, 5, 6, 7, 8, 9]);
}

#[test]
fn rem_0_2_4_6_8_9() {
    let mut v = vec![0, 1, 2, 3, 4, 5, 6, 7, 8, 9];
    v.drain_at_sorted_unchecked(&[1, 3, 5, 7]);
    assert_eq!(v, vec![0, 2, 4, 6, 8, 9]);
}

#[test]
fn rem_last() {
    let mut v = vec![0, 1, 2, 3, 4, 5, 6, 7, 8, 9];
    v.drain_at_sorted_unchecked(&[9]);
    assert_eq!(v, vec![0, 1, 2, 3, 4, 5, 6, 7, 8]);
}

#[test]
fn rem_last_two() {
    let mut v = vec![0, 1, 2, 3, 4, 5, 6, 7, 8, 9];
    v.drain_at_sorted_unchecked(&[8, 9]);
    assert_eq!(v, vec![0, 1, 2, 3, 4, 5, 6, 7]);
}

#[test]
fn rem_middle() {
    let mut v = vec![0, 1, 2, 3, 4, 5, 6, 7, 8, 9];
    v.drain_at_sorted_unchecked(&[4]);
    assert_eq!(v, vec![0, 1, 2, 3, 5, 6, 7, 8, 9]);
}

#[test]
fn rem_multiple_non_consecutive() {
    let mut v = vec![0, 1, 2, 3, 4, 5, 6, 7, 8, 9];
    v.drain_at_sorted_unchecked(&[0, 3, 5, 8]);
    assert_eq!(v, vec![1, 2, 4, 6, 7, 9]);
}

#[test]
fn rem_empty() {
    let mut v = vec![0, 1, 2, 3, 4, 5, 6, 7, 8, 9];
    v.drain_at_sorted_unchecked(&[]);
    assert_eq!(v, vec![0, 1, 2, 3, 4, 5, 6, 7, 8, 9]);
}

#[test]
fn rem_single_elem_vector() {
    let mut v = vec![0];
    v.drain_at_sorted_unchecked(&[0]);
    assert_eq!(v, Vec::<i32>::new());
}

#[test]
fn rem_consecutive_elements() {
    let mut v = vec![0, 1, 2, 3, 4, 5, 6, 7, 8, 9];
    v.drain_at_sorted_unchecked(&[1, 2, 3, 4]);
    assert_eq!(v, vec![0, 5, 6, 7, 8, 9]);
}

#[test]
fn rem_consecutive_elements_and_last() {
    let mut v = vec![0, 1, 2, 3, 4, 5, 6, 7, 8, 9];
    v.drain_at_sorted_unchecked(&[1, 2, 3, 4, 9]);
    assert_eq!(v, vec![0, 5, 6, 7, 8]);
}

#[test]
fn rem_empty_vector() {
    let mut v: Vec<i32> = Vec::new();
    v.drain_at_sorted_unchecked(&[]);
    assert_eq!(v, Vec::<i32>::new());
}

#[test]
fn rem_all() {
    let mut v = vec![0, 1, 2, 3];
    v.drain_at_sorted_unchecked(&[0, 1, 2, 3]);
    assert_eq!(v, Vec::<i32>::new());
}

#[test]
fn free_fn_standalone() {
    let mut v = vec![0, 1, 2, 3, 4, 5, 6, 7, 8];
    drain_at_sorted_unchecked(&mut v, &[2, 4, 6]);
    assert_eq!(v, [0, 1, 3, 5, 7, 8]);
}

#[test]
fn length_shrinks_by_position_count() {
    let mut v: Vec<u32> = (0..100).collect();
    v.drain_at_sorted_unchecked(&[0, 7, 8, 9, 42, 99]);
    assert_eq!(v.len(), 100 - 6);
}

#[test]
fn survivors_keep_relative_order() {
    let mut v = vec!["a", "b", "c", "d", "e", "f", "g"];
    v.drain_at_sorted_unchecked(&[0, 2, 3, 6]);
    assert_eq!(v, vec!["b", "e", "f"]);
}

#[test]
fn capacity_never_shrinks() {
    let mut v: Vec<u32> = Vec::with_capacity(64);
    for x in 0..10 {
        v.push(x);
    }
    let cap_before = v.capacity();
    v.drain_at_sorted_unchecked(&[0, 5, 9]);
    assert!(v.capacity() >= cap_before);
    assert_eq!(v, vec![1, 2, 3, 4, 6, 7, 8]);
}

/// An element that records its own destruction in a shared log.
struct Counted {
    label: usize,
    log: Rc<RefCell<Vec<usize>>>,
}

impl Drop for Counted {
    fn drop(&mut self) {
        self.log.borrow_mut().push(self.label);
    }
}

#[test]
fn drops_removed_exactly_once_and_no_survivor() {
    let log: Rc<RefCell<Vec<usize>>> = Rc::new(RefCell::new(Vec::new()));
    let mut v: Vec<Counted> = (0..6)
        .map(|label| Counted { label, log: Rc::clone(&log) })
        .collect();
    v.drain_at_sorted_unchecked(&[1, 2, 4]);
    let mut dropped_during_call = log.borrow().clone();
    dropped_during_call.sort();
    assert_eq!(dropped_during_call, vec![1, 2, 4]);
    let survivors: Vec<usize> = v.iter().map(|c| c.label).collect();
    assert_eq!(survivors, vec![0, 3, 5]);
    drop(v);
    let mut dropped_in_all = log.borrow().clone();
    dropped_in_all.sort();
    assert_eq!(dropped_in_all, vec![0, 1, 2, 3, 4, 5]);
}
