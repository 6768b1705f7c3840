use prism_lb::tcp_pool::TcpPool;
use std::collections::{HashMap, VecDeque};

#[test]
fn get_connection_hands_out_front_and_records_it() {
    let available: VecDeque<u64> = vec![10, 11, 12].into_iter().collect();
    let mut pool = TcpPool::new(available, HashMap::new(), 3, 0);
    let (id, conn) = pool.get_connection();
    assert_eq!(conn, 10);
    assert_eq!(id, 1);
    let (id, conn) = pool.get_connection();
    assert_eq!(conn, 11);
    assert_eq!(id, 2);
}

#[test]
fn returned_connection_goes_to_back_of_queue() {
    let available: VecDeque<u64> = vec![10, 11].into_iter().collect();
    let mut pool = TcpPool::new(available, HashMap::new(), 2, 0);
    let (_, first) = pool.get_connection();
    pool.return_connection(0);
    let (_, second) = pool.get_connection();
    let (_, third) = pool.get_connection();
    assert_eq!(first, 10);
    assert_eq!(second, 11);
    assert_eq!(third, 10);
}
