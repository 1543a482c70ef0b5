use acpe::id_pool::IdPool;

#[test]
fn a_new_pool_hands_out_the_smallest_id_first() {
    let mut pool = IdPool::new(3);
    assert!(!pool.is_full());
    assert_eq!(pool.pop(), 0);
    assert_eq!(pool.pop(), 1);
    assert!(!pool.is_full());
    assert_eq!(pool.pop(), 2);
    assert!(pool.is_full());
}

#[test]
fn an_id_that_comes_back_is_the_next_to_go_out() {
    let mut pool = IdPool::new(4);
    assert_eq!(pool.pop(), 0);
    assert_eq!(pool.pop(), 1);
    pool.push(0);
    assert_eq!(pool.pop(), 0);
    assert_eq!(pool.pop(), 2);
    pool.push(1);
    pool.push(2);
    assert_eq!(pool.pop(), 2);
    assert_eq!(pool.pop(), 1);
    assert_eq!(pool.pop(), 3);
    assert!(pool.is_full());
}

#[test]
fn a_pool_for_nobody_is_full() {
    let pool = IdPool::new(0);
    assert!(pool.is_full());
}
