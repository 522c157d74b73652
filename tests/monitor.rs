use web_pulse_monitor::{Address, Check, Endpoint, MonitorError, WebPulseMonitor};

fn addr(key: &str) -> Address {
    Address { key: key.to_string() }
}

#[test]
fn two_endpoints_and_two_checks() {
    let mut m = WebPulseMonitor::new();
    let owner_a = addr("GOWNERA");
    let owner_b = addr("GOWNERB");
    let oracle = addr("GORACLEX");
    assert_eq!(m.register_endpoint(owner_a, "h1".to_string()), 1);
    assert_eq!(m.register_endpoint(owner_b, "h2".to_string()), 2);
    assert_eq!(m.submit_check(oracle.clone(), 1, true, 100), Ok(()));
    assert_eq!(m.submit_check(oracle, 1, false, 105), Ok(()));
    assert_eq!(m.get_check_count(1), 2);
    assert_eq!(m.view_latest(1).unwrap().status, false);
    assert_eq!(m.get_check_count(2), 0);
}

#[test]
fn ids_are_consecutive_from_one() {
    let mut m = WebPulseMonitor::new();
    assert_eq!(m.get_endpoint_count(), 0);
    for n in 1..=5u64 {
        let id = m.register_endpoint(addr("GOWNER"), format!("hash{}", n));
        assert_eq!(id, n);
        assert_eq!(m.get_endpoint_count(), id);
    }
}

#[test]
fn registered_endpoint_is_stored() {
    let mut m = WebPulseMonitor::new();
    let id = m.register_endpoint(addr("GOWNERA"), "abc123".to_string());
    assert_eq!(
        m.get_endpoint(id),
        Ok(Endpoint { id: 1, owner: addr("GOWNERA"), url_hash: "abc123".to_string() })
    );
}

#[test]
fn unknown_endpoint_is_not_found() {
    let mut m = WebPulseMonitor::new();
    assert_eq!(m.get_endpoint(0), Err(MonitorError::NotFound));
    assert_eq!(m.get_endpoint(1), Err(MonitorError::NotFound));
    m.register_endpoint(addr("GOWNERA"), "h".to_string());
    assert_eq!(m.get_endpoint(2), Err(MonitorError::NotFound));
    assert_eq!(m.view_latest(2), Err(MonitorError::NotFound));
    assert_eq!(m.view_check(2, 0), Err(MonitorError::NotFound));
    assert_eq!(m.view_latest(0), Err(MonitorError::NotFound));
}

#[test]
fn fresh_endpoint_has_empty_log() {
    let mut m = WebPulseMonitor::new();
    let id = m.register_endpoint(addr("GOWNERA"), "h".to_string());
    assert_eq!(m.get_check_count(id), 0);
    assert_eq!(m.view_latest(id), Err(MonitorError::EmptyLog));
    assert_eq!(m.view_check(id, 0), Err(MonitorError::IndexOutOfRange));
}

#[test]
fn checks_are_kept_in_submission_order() {
    let mut m = WebPulseMonitor::new();
    let id = m.register_endpoint(addr("GOWNERA"), "h".to_string());
    let statuses = [true, false, true, true];
    for (i, s) in statuses.iter().enumerate() {
        let oracle = addr(&format!("GORACLE{}", i));
        assert_eq!(m.submit_check(oracle, id, *s, 1000 + i as u64), Ok(()));
    }
    assert_eq!(m.get_check_count(id), 4);
    for (i, s) in statuses.iter().enumerate() {
        assert_eq!(
            m.view_check(id, i as u32),
            Ok(Check {
                endpoint_id: id,
                status: *s,
                timestamp: 1000 + i as u64,
                oracle: addr(&format!("GORACLE{}", i)),
            })
        );
    }
    assert_eq!(m.view_check(id, 3), m.view_latest(id));
    assert_eq!(m.view_check(id, 4), Err(MonitorError::IndexOutOfRange));
    assert_eq!(m.view_check(id, u32::MAX), Err(MonitorError::IndexOutOfRange));
}

#[test]
fn submit_to_missing_endpoint_fails() {
    let mut m = WebPulseMonitor::new();
    m.register_endpoint(addr("GOWNERA"), "h".to_string());
    assert_eq!(m.submit_check(addr("GORACLE"), 7, true, 1), Err(MonitorError::NotFound));
    assert_eq!(m.submit_check(addr("GORACLE"), 0, true, 1), Err(MonitorError::NotFound));
    assert_eq!(m.get_check_count(7), 0);
    assert_eq!(m.get_check_count(0), 0);
    assert_eq!(m.get_check_count(1), 0);
    assert_eq!(m.get_endpoint_count(), 1);
}

#[test]
fn logs_of_endpoints_are_separate() {
    let mut m = WebPulseMonitor::new();
    let a = m.register_endpoint(addr("GOWNERA"), "ha".to_string());
    let b = m.register_endpoint(addr("GOWNERB"), "hb".to_string());
    assert_eq!(m.submit_check(addr("GORACLE"), b, true, 9), Ok(()));
    assert_eq!(m.get_check_count(a), 0);
    assert_eq!(m.get_check_count(b), 1);
    let latest = m.view_latest(b).unwrap();
    assert_eq!(latest.endpoint_id, b);
    assert_eq!(latest.timestamp, 9);
    assert_eq!(latest.oracle, addr("GORACLE"));
}
