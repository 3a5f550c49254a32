use round_robin_proxy::{RoundRobin, Servers};

fn backend(url: &str) -> Servers {
    Servers { url: url.to_string(), health_check_path: "/health".to_string() }
}

#[test]
fn all_healthy_rotation_visits_each_once_in_order() {
    let mut pool = RoundRobin::new(vec![
        backend("http://a:1"),
        backend("http://b:2"),
        backend("http://c:3"),
    ]);
    assert_eq!(pool.get_next_server(), Some("http://a:1".to_string()));
    assert_eq!(pool.get_next_server(), Some("http://b:2".to_string()));
    assert_eq!(pool.get_next_server(), Some("http://c:3".to_string()));
    // the next full sweep starts over, after the last-selected position
    assert_eq!(pool.get_next_server(), Some("http://a:1".to_string()));
}

#[test]
fn two_sequential_requests_route_to_a_then_b() {
    let mut pool = RoundRobin::new(vec![backend("http://a:1"), backend("http://b:2")]);
    assert_eq!(pool.get_next_server(), Some("http://a:1".to_string()));
    assert_eq!(pool.get_next_server(), Some("http://b:2".to_string()));
}

#[test]
fn unhealthy_backend_is_skipped() {
    let mut pool = RoundRobin::new(vec![backend("http://a:1"), backend("http://b:2")]);
    pool.update_healthy(0, false);
    assert_eq!(pool.get_next_server(), Some("http://b:2".to_string()));
    assert_eq!(pool.get_next_server(), Some("http://b:2".to_string()));
}

#[test]
fn unhealthy_backend_returns_after_recovery() {
    let mut pool = RoundRobin::new(vec![
        backend("http://a:1"),
        backend("http://b:2"),
        backend("http://c:3"),
    ]);
    pool.update_healthy(1, false);
    assert_eq!(pool.get_next_server(), Some("http://a:1".to_string()));
    assert_eq!(pool.get_next_server(), Some("http://c:3".to_string()));
    pool.update_healthy(1, true);
    assert_eq!(pool.get_next_server(), Some("http://a:1".to_string()));
    assert_eq!(pool.get_next_server(), Some("http://b:2".to_string()));
}

#[test]
fn all_unhealthy_returns_none_and_stays_bounded() {
    let mut pool = RoundRobin::new(vec![backend("http://a:1"), backend("http://b:2")]);
    pool.update_healthy(0, false);
    pool.update_healthy(1, false);
    assert_eq!(pool.get_next_server(), None);
    // a failed full sweep leaves the rotation where it was
    assert_eq!(pool.get_next_server(), None);
    pool.update_healthy(1, true);
    assert_eq!(pool.get_next_server(), Some("http://b:2".to_string()));
}

#[test]
fn empty_pool_returns_none_immediately() {
    let mut pool = RoundRobin::new(Vec::new());
    assert_eq!(pool.get_next_server(), None);
    assert!(pool.get_all_servers().is_none());
    assert_eq!(pool.len(), 0);
}

#[test]
fn single_backend_degenerates_to_index_zero() {
    let mut pool = RoundRobin::new(vec![backend("http://only:9")]);
    assert_eq!(pool.get_next_server(), Some("http://only:9".to_string()));
    assert_eq!(pool.get_next_server(), Some("http://only:9".to_string()));
}

#[test]
fn snapshot_copies_all_backends_in_order() {
    let mut pool = RoundRobin::new(vec![backend("http://a:1"), backend("http://b:2")]);
    pool.update_healthy(1, false);
    let snap = pool.get_all_servers().expect("non-empty pool");
    assert_eq!(snap.len(), 2);
    assert_eq!(snap[0].url, "http://a:1");
    assert!(snap[0].healthy);
    assert_eq!(snap[0].health_check_path, "/health");
    assert_eq!(snap[1].url, "http://b:2");
    assert!(!snap[1].healthy);
    assert_eq!(snap[1].health_check_path, "/health");
}
