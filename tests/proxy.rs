use rr_proxy::{parse_upstreams, response_code, split_fields, Backend, BackendPool, ConfigError, MyCtx, RequestCounter, LB};

fn pool_of(addrs: &[&str]) -> BackendPool {
    let v: Vec<Backend> = addrs.iter().map(|a| Backend::new(a.as_bytes().to_vec())).collect();
    BackendPool::new(v).expect("non-empty pool")
}

fn addr(b: &Backend) -> String {
    String::from_utf8(b.as_bytes().to_vec()).unwrap()
}

#[test]
fn single_backend_always_selected() {
    let mut pool = pool_of(&["10.0.0.1:80"]);
    for _ in 0..5 {
        assert_eq!(addr(&pool.select()), "10.0.0.1:80");
    }
}

#[test]
fn three_backends_six_selections() {
    let mut pool = pool_of(&["A", "B", "C"]);
    let got: Vec<String> = (0..6).map(|_| addr(&pool.select())).collect();
    assert_eq!(got, vec!["A", "B", "C", "A", "B", "C"]);
}

#[test]
fn wraparound_after_k_calls() {
    let mut pool = pool_of(&["a:1", "b:2", "c:3", "d:4"]);
    let first = addr(&pool.select());
    for _ in 0..3 {
        pool.select();
    }
    assert_eq!(pool.cursor(), 0);
    assert_eq!(addr(&pool.select()), first);
}

#[test]
fn fairness_counts_floor_or_ceil() {
    let names = ["a", "b", "c"];
    let mut pool = pool_of(&names);
    let mut counts = [0usize; 3];
    for _ in 0..10 {
        let b = addr(&pool.select());
        let i = names.iter().position(|n| *n == b).unwrap();
        counts[i] += 1;
    }
    assert_eq!(counts, [4, 3, 3]);
}

#[test]
fn first_k_selections_have_no_repeats() {
    let mut pool = pool_of(&["x", "y", "z"]);
    let mut got: Vec<String> = (0..3).map(|_| addr(&pool.select())).collect();
    got.sort();
    got.dedup();
    assert_eq!(got.len(), 3);
}

#[test]
fn empty_pool_is_rejected() {
    assert_eq!(BackendPool::new(Vec::new()).err(), Some(ConfigError::EmptyPool));
}

#[test]
fn split_keeps_order_and_empty_fields() {
    let v = split_fields(b"10.0.0.1:8080,,10.0.0.2:8080");
    let got: Vec<String> = v.iter().map(addr).collect();
    assert_eq!(got, vec!["10.0.0.1:8080", "", "10.0.0.2:8080"]);
    assert_eq!(split_fields(b"").len(), 1);
}

#[test]
fn parse_list_of_two() {
    let v = parse_upstreams(b"10.0.0.1:8080,10.0.0.2:8080").unwrap();
    let got: Vec<String> = v.iter().map(addr).collect();
    assert_eq!(got, vec!["10.0.0.1:8080", "10.0.0.2:8080"]);
}

#[test]
fn parse_rejects_empty_entries() {
    assert_eq!(parse_upstreams(b"").err(), Some(ConfigError::EmptyAddress));
    assert_eq!(parse_upstreams(b"a:1,").err(), Some(ConfigError::EmptyAddress));
    assert_eq!(parse_upstreams(b",a:1").err(), Some(ConfigError::EmptyAddress));
    assert_eq!(parse_upstreams(b"a:1,,b:2").err(), Some(ConfigError::EmptyAddress));
}

#[test]
fn config_builds_proxy_in_order() {
    let mut lb = LB::from_config(b"h1:80,h2:80").unwrap();
    let mut ctx = lb.new_ctx(5);
    assert_eq!(addr(&lb.upstream_peer(&mut ctx, 10)), "h1:80");
    assert_eq!(addr(&lb.upstream_peer(&mut ctx, 11)), "h2:80");
    assert_eq!(addr(&lb.upstream_peer(&mut ctx, 12)), "h1:80");
    assert!(LB::from_config(b"").is_err());
}

#[test]
fn counter_counts_every_increment() {
    let mut c = RequestCounter::new();
    assert_eq!(c.value(), 0);
    let mut last = c.value();
    for _ in 0..4 {
        c.increment();
        assert!(c.value() >= last);
        last = c.value();
    }
    assert_eq!(c.value(), 4);
    assert!(c.can_increment());
}

#[test]
fn upstream_failure_is_logged_and_counted() {
    let mut lb = LB::from_config(b"127.0.0.1:1").unwrap();
    let mut ctx = lb.new_ctx(1_000);
    let peer = lb.upstream_peer(&mut ctx, 1_000);
    assert_eq!(addr(&peer), "127.0.0.1:1");
    let rec = lb.logging(&ctx, 1_750, Some(502));
    assert_eq!(rec.status, 502);
    assert_eq!(rec.elapsed_nanos, 750);
    assert!(rec.elapsed_nanos > 0);
    assert_eq!(lb.requests(), 1);
}

#[test]
fn aborted_request_reports_status_zero() {
    let mut lb = LB::from_config(b"a:1").unwrap();
    let ctx = lb.new_ctx(40);
    let rec = lb.logging(&ctx, 30, None);
    assert_eq!(rec.status, 0);
    assert_eq!(rec.elapsed_nanos, 0);
    assert_eq!(lb.requests(), 1);
    assert_eq!(response_code(Some(200)), 200);
    assert_eq!(response_code(None), 0);
}

#[test]
fn metrics_read_after_seven_requests() {
    let mut lb = LB::from_config(b"a:1,b:2").unwrap();
    for i in 0..7u64 {
        let mut ctx = lb.new_ctx(i);
        lb.upstream_peer(&mut ctx, i);
        let status = if i % 2 == 0 { Some(200) } else { Some(502) };
        lb.logging(&ctx, i + 3, status);
    }
    assert_eq!(lb.requests(), 7);
    assert_eq!(lb.pool().cursor(), 1);
}

#[test]
fn context_measures_elapsed_time() {
    let ctx = MyCtx::new(100);
    assert_eq!(ctx.started_at(), 100);
    assert_eq!(ctx.elapsed(250), 150);
    assert_eq!(ctx.elapsed(99), 0);
}
