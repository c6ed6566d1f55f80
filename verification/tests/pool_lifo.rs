//! The work pool's LIFO discipline.

use factory::pool::WorkPool;

#[test]
fn pop_returns_most_recently_pushed() {
    let mut pool: WorkPool<u32> = WorkPool::new(vec![]);
    pool.push(1);
    pool.push(2);
    pool.push(3);
    assert_eq!(pool.pop(), Some(3));
    assert_eq!(pool.pop(), Some(2));
    pool.push(4);
    assert_eq!(pool.pop(), Some(4));
    assert_eq!(pool.pop(), Some(1));
    assert_eq!(pool.pop(), None);
}

#[test]
fn new_pool_pops_initial_items_from_the_back() {
    let mut pool = WorkPool::new(vec![10, 20, 30]);
    assert_eq!(pool.len(), 3);
    assert!(!pool.is_empty());
    assert_eq!(pool.pop(), Some(30));
    assert_eq!(pool.pop(), Some(20));
    assert_eq!(pool.pop(), Some(10));
    assert!(pool.is_empty());
    assert_eq!(pool.pop(), None);
}

#[test]
fn push_all_keeps_order_so_the_last_lands_on_top() {
    let mut pool = WorkPool::new(vec![1]);
    pool.push_all(vec![2, 3]);
    assert_eq!(pool.len(), 3);
    assert_eq!(pool.pop(), Some(3));
    assert_eq!(pool.pop(), Some(2));
    assert_eq!(pool.pop(), Some(1));
}
