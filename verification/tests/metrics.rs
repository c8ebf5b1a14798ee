use core_engine::metrics::Metrics;

#[test]
fn renders_prometheus_text() {
    let mut metrics = Metrics::new();
    metrics.inc_accepts();
    metrics.inc_frames();
    metrics.inc_append_ok();
    let text = metrics.render_prometheus("node-1");
    assert!(text.contains("core_engine_tcp_accepts_total{node_id=\"node-1\"} 1"));
    assert!(text.contains("core_engine_frames_in_total{node_id=\"node-1\"} 1"));
    assert!(text.contains("core_engine_append_ok_total{node_id=\"node-1\"} 1"));
}

#[test]
fn interleaved_accepts_and_closes_leave_the_difference() {
    let mut metrics = Metrics::new();
    metrics.dec_connections();
    metrics.inc_accepts();
    metrics.inc_accepts();
    metrics.dec_connections();
    metrics.inc_accepts();

    assert_eq!(metrics.tcp_accepts, 3);
    assert_eq!(metrics.active_connections, 1);
    assert_eq!(metrics.frames_in, 0);
    assert!(metrics.render_prometheus("n").contains("core_engine_active_connections{node_id=\"n\"} 1\n"));
}
