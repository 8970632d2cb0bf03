use lb::base::net::{IpAddr, Ipv4Addr};
use lb::base::time::Duration;
use lb::health::checker::{probe_targets, HealthChecker};
use lb::health::probe::{
    classify_response, classify_text, step_result, write_failure, Attempt, HttpProbe, ProbeError,
    ProbeResult, ProbeStep, TcpProbe, WriteStep,
};
use lb::health::state_machine::HealthState;
use lb::health::status_map::HealthMap;
use lb::types::backend::{Backend, HealthStatus};

#[test]
fn unknown_to_healthy() {
    let mut state = HealthState::new();
    assert_eq!(state.record_result(true, 2, 3), None);
    assert_eq!(state.record_result(true, 2, 3), Some(HealthStatus::Healthy));
    assert_eq!(state.status, HealthStatus::Healthy);
}

#[test]
fn unknown_to_unhealthy() {
    let mut state = HealthState::new();
    assert_eq!(state.record_result(false, 2, 3), None);
    assert_eq!(state.record_result(false, 2, 3), None);
    assert_eq!(
        state.record_result(false, 2, 3),
        Some(HealthStatus::Unhealthy)
    );
}

#[test]
fn healthy_to_unhealthy() {
    let mut state = HealthState::new();
    state.record_result(true, 2, 3);
    state.record_result(true, 2, 3);
    assert_eq!(state.status, HealthStatus::Healthy);

    assert_eq!(state.record_result(false, 2, 3), None);
    assert_eq!(state.record_result(false, 2, 3), None);
    assert_eq!(
        state.record_result(false, 2, 3),
        Some(HealthStatus::Unhealthy)
    );
}

#[test]
fn unhealthy_to_healthy() {
    let mut state = HealthState::new();
    // Get to unhealthy
    for _ in 0..3 {
        state.record_result(false, 2, 3);
    }
    assert_eq!(state.status, HealthStatus::Unhealthy);

    assert_eq!(state.record_result(true, 2, 3), None);
    assert_eq!(state.record_result(true, 2, 3), Some(HealthStatus::Healthy));
}

#[test]
fn mixed_results_no_transition() {
    let mut state = HealthState::new();
    // Alternate success/failure: never reaches threshold
    for _ in 0..10 {
        assert_eq!(state.record_result(true, 3, 3), None);
        assert_eq!(state.record_result(false, 3, 3), None);
    }
    assert_eq!(state.status, HealthStatus::Unknown);
}

#[test]
fn failure_resets_success_counter() {
    let mut state = HealthState::new();
    state.record_result(true, 3, 3);
    state.record_result(true, 3, 3);
    // One failure resets
    state.record_result(false, 3, 3);
    assert_eq!(state.consecutive_successes, 0);
    assert_eq!(state.consecutive_failures, 1);
}

fn backend(last: u8, port: u16) -> Backend {
    Backend::new(IpAddr::V4(Ipv4Addr::new(10, 0, 0, last)), port)
}

#[test]
fn a_long_run_decides_whatever_came_before() {
    let mut state = HealthState::default();
    for success in [true, false, false, true, false, true, true] {
        state.record_result(success, 2, 3);
    }
    assert_eq!(state.status, HealthStatus::Healthy);
    assert_eq!(state.consecutive_successes, 2);
    for _ in 0..5 {
        state.record_result(false, 2, 3);
    }
    assert_eq!(state.status, HealthStatus::Unhealthy);
    assert_eq!(state.consecutive_failures, 5);
}

#[test]
fn a_checker_reports_changes_only() {
    let checker = HealthChecker::new(Duration::from_secs(5), Duration::from_secs(2), 2, 2);
    let mut state = HealthState::new();
    assert_eq!(checker.observe(&mut state, &ProbeResult::Success), None);
    assert_eq!(
        checker.observe(&mut state, &ProbeResult::Success),
        Some(HealthStatus::Healthy)
    );
    assert_eq!(checker.observe(&mut state, &ProbeResult::Success), None);
    let failure = ProbeResult::Failure("connect timed out".into());
    assert_eq!(checker.observe(&mut state, &failure), None);
    assert_eq!(
        checker.observe(&mut state, &failure),
        Some(HealthStatus::Unhealthy)
    );
}

#[test]
fn backends_in_several_pools_are_probed_once() {
    let mut twin = backend(1, 443);
    twin.weight = 9;
    let targets = probe_targets(&vec![
        backend(1, 443),
        backend(2, 443),
        twin,
        backend(1, 80),
    ]);
    assert_eq!(targets, vec![backend(1, 443), backend(2, 443), backend(1, 80)]);
}

fn words(r: ProbeResult) -> String {
    match r {
        ProbeResult::Success => "success".into(),
        ProbeResult::Failure(m) => m,
    }
}

#[test]
fn http_requests_are_minimal() {
    let probe = HttpProbe::new("/healthz".into());
    assert_eq!(
        probe.request(&backend(1, 8080)),
        "GET /healthz HTTP/1.1\r\nHost: 10.0.0.1\r\nConnection: close\r\n\r\n"
    );
}

#[test]
fn answers_are_judged_by_their_status_line() {
    assert!(classify_response(b"HTTP/1.1 200 OK\r\nContent-Length: 2\r\n\r\nok").is_success());
    assert!(classify_response(b"HTTP/1.1 204 No Content").is_success());
    assert_eq!(
        words(classify_response(b"HTTP/1.1 503 Service Unavailable\r\nAge: 2\r\n")),
        "non-2xx response: HTTP/1.1 503 Service Unavailable"
    );
    assert_eq!(
        words(classify_response(b"HTTP/1.1 404 2nd tier missing\r\n")),
        "non-2xx response: HTTP/1.1 404 2nd tier missing"
    );
    assert_eq!(
        words(classify_text("HTTP/1.1 2xx")),
        "non-2xx response: HTTP/1.1 2xx"
    );
    assert_eq!(
        words(classify_text("HTTP/1.1 2000 OK")),
        "non-2xx response: HTTP/1.1 2000 OK"
    );
    assert!(classify_text("HTTP/1.1 200").is_success());
    assert_eq!(words(classify_response(b"")), "no response data");
    assert_eq!(words(classify_text("")), "empty response");
    assert_eq!(words(classify_text("\r\nHTTP/1.1 200 OK")), "non-2xx response: ");
    assert_eq!(words(classify_text("bad\r")), "non-2xx response: bad\r");
    assert_eq!(
        words(classify_response(&[0xff, b'\n'])),
        "non-2xx response: \u{fffd}"
    );
}

#[test]
fn failed_steps_are_reported() {
    assert!(TcpProbe.judge(Attempt::Done).is_success());
    assert_eq!(
        words(TcpProbe.judge(Attempt::TimedOut)),
        "tcp connect timed out"
    );
    assert_eq!(
        words(step_result(ProbeStep::TcpConnect, Attempt::Failed("refused".into()))),
        "tcp connect failed: refused"
    );
    assert_eq!(
        words(step_result(ProbeStep::Connect, Attempt::TimedOut)),
        "connect timed out"
    );
    assert_eq!(
        words(step_result(ProbeStep::TlsHandshake, Attempt::Failed("alert".into()))),
        "TLS handshake failed: alert"
    );
    assert_eq!(
        words(step_result(ProbeStep::Read, Attempt::TimedOut)),
        "read timed out"
    );
    assert_eq!(words(write_failure(WriteStep::Write, "reset")), "write failed: reset");
    assert_eq!(
        words(write_failure(WriteStep::Ready, "reset")),
        "stream not writable: reset"
    );
    assert_eq!(ProbeError::Timeout.message(), "probe timed out");
    assert_eq!(
        ProbeError::ConnectionFailed("x".into()).message(),
        "connection failed: x"
    );
    assert_eq!(
        ProbeError::UnexpectedResponse("x".into()).message(),
        "unexpected response: x"
    );
}

#[test]
fn unknown_backends_are_usable() {
    let mut map = HealthMap::new();
    let ip = IpAddr::V4(Ipv4Addr::new(10, 0, 0, 1));
    assert!(map.is_usable(&ip));
    assert_eq!(map.get(&ip), None);
    map.insert(ip, HealthStatus::Unhealthy);
    assert!(!map.is_usable(&ip));
    assert_eq!(map.get(&ip), Some(HealthStatus::Unhealthy));
    map.insert(ip, HealthStatus::Healthy);
    assert!(map.is_usable(&ip));
    assert!(map.is_usable(&IpAddr::V4(Ipv4Addr::new(10, 0, 0, 2))));
}
