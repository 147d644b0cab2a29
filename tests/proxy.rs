use deet::proxy::{probe_ok, RateWindow, UpstreamPool, WINDOW_MS};

#[test]
fn rate_window_limits_requests_per_minute() {
    let mut w = RateWindow::new();
    assert!(w.allow_request(1_000, 2));
    assert!(w.allow_request(2_000, 2));
    assert!(!w.allow_request(3_000, 2));
    assert_eq!(w.len(), 2);
    // Exactly one window later the first request still counts.
    assert!(!w.allow_request(1_000 + WINDOW_MS, 2));
    // Just after that it has left the window.
    assert!(w.allow_request(1_001 + WINDOW_MS, 2));
    assert_eq!(w.len(), 2);
    assert!(!w.allow_request(1_500 + WINDOW_MS, 2));
}

#[test]
fn rate_window_forgets_everything_old() {
    let mut w = RateWindow::new();
    for t in 0..5u64 {
        assert!(w.allow_request(t, 10));
    }
    assert!(w.allow_request(10 * WINDOW_MS, 1));
    assert_eq!(w.len(), 1);
}

#[test]
fn rate_window_with_zero_limit_refuses() {
    let mut w = RateWindow::new();
    assert!(!w.allow_request(5, 0));
    assert_eq!(w.len(), 0);
}

#[test]
fn pool_picks_a_live_upstream() {
    let addrs = vec!["10.0.0.1:80".to_string(), "10.0.0.2:80".to_string(), "10.0.0.3:80".to_string()];
    let mut pool = UpstreamPool::new(addrs.clone());
    for _ in 0..50 {
        let (i, a) = pool.pick().unwrap();
        assert!(i < 3);
        assert_eq!(a, addrs[i]);
    }
    pool.remove(1);
    assert_eq!(pool.len(), 2);
    for _ in 0..50 {
        let (i, a) = pool.pick().unwrap();
        assert_ne!(a, "10.0.0.2:80");
        assert!(i < 2);
    }
    pool.remove(0);
    pool.remove(0);
    assert!(pool.pick().is_none());
    pool.replace(vec!["10.0.0.9:80".to_string()]);
    assert_eq!(pool.pick(), Some((0, "10.0.0.9:80".to_string())));
}

#[test]
fn only_status_200_is_healthy() {
    assert!(probe_ok(200));
    assert!(!probe_ok(204));
    assert!(!probe_ok(500));
}
