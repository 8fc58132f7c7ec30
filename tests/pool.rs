use speedtester_rs::pool::{PoolError, PortPool};

#[test]
fn pool_rejects_empty_range() {
    assert!(PortPool::new(9001, 9000).is_none());
    assert!(PortPool::new(9000, 9000).is_some());
}

#[test]
fn pool_takes_lowest_free_first() {
    let mut pool = PortPool::new(9000, 9002).unwrap();
    assert_eq!(pool.take(), Ok(9000));
    assert_eq!(pool.take(), Ok(9001));
    assert_eq!(pool.give_back(9000), Ok(()));
    assert_eq!(pool.take(), Ok(9000));
    assert_eq!(pool.take(), Ok(9002));
    assert_eq!(pool.take(), Err(PoolError::Exhausted));
}

#[test]
fn pool_held_ports_are_distinct() {
    let mut pool = PortPool::new(100, 104).unwrap();
    let mut held: Vec<u16> = Vec::new();
    for round in 0..20u32 {
        if round % 3 == 2 && !held.is_empty() {
            let p = held.remove(0);
            assert_eq!(pool.give_back(p), Ok(()));
        } else {
            match pool.take() {
                Ok(p) => {
                    assert!(!held.contains(&p));
                    assert!((100..=104).contains(&p));
                    held.push(p);
                }
                Err(e) => {
                    assert_eq!(e, PoolError::Exhausted);
                    assert_eq!(held.len(), 5);
                }
            }
        }
    }
}

#[test]
fn pool_give_back_of_free_port_is_refused() {
    let mut pool = PortPool::new(9000, 9001).unwrap();
    assert_eq!(pool.give_back(9000), Err(PoolError::InvalidPort));
    assert_eq!(pool.give_back(8000), Err(PoolError::InvalidPort));
    assert_eq!(pool.take(), Ok(9000));
    assert_eq!(pool.give_back(9000), Ok(()));
    assert_eq!(pool.give_back(9000), Err(PoolError::InvalidPort));
    assert!(!pool.is_allocated(9000));
}

#[test]
fn pool_full_range_of_u16() {
    let mut pool = PortPool::new(65534, 65535).unwrap();
    assert_eq!(pool.min_port(), 65534);
    assert_eq!(pool.max_port(), 65535);
    assert_eq!(pool.take(), Ok(65534));
    assert_eq!(pool.take(), Ok(65535));
    assert_eq!(pool.take(), Err(PoolError::Exhausted));
    assert!(pool.is_allocated(65535));
}
