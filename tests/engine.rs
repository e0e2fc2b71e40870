use qscan::{
    is_fd_exhaustion, mentions_fd_exhaustion, AttemptEvent, Endpoint, HostAddr, ProbeOutcome,
    ProbeState, ProbeStep, QSPrintMode, QScanTcpConnectState, Report, SockIter, TcpScan,
};

fn v4(a: u8, b: u8, c: u8, d: u8) -> HostAddr {
    HostAddr::v4(a, b, c, d)
}

#[test]
fn sockiter_ports_outer_hosts_inner() {
    let ips = vec![v4(1, 0, 0, 1), v4(1, 0, 0, 2)];
    let ports = vec![22, 80];
    let mut it = SockIter::new(&ips, &ports);
    let mut seen = Vec::new();
    while let Some(e) = it.next() {
        seen.push((e.ip, e.port));
    }
    assert_eq!(
        seen,
        vec![(ips[0], 22), (ips[1], 22), (ips[0], 80), (ips[1], 80)]
    );
    assert!(it.is_exhausted());
    assert_eq!(it.next(), None);
}

#[test]
fn sockiter_empty_sides() {
    let ips: Vec<HostAddr> = vec![];
    let ports = vec![1, 2];
    let mut it = SockIter::new(&ips, &ports);
    assert_eq!(it.next(), None);
    let ips2 = vec![v4(1, 1, 1, 1)];
    let no_ports: Vec<u16> = vec![];
    let mut it2 = SockIter::new(&ips2, &no_ports);
    assert_eq!(it2.next(), None);
}

#[test]
fn scan_of_empty_product_is_empty() {
    let ips: Vec<HostAddr> = vec![];
    let ports = vec![80];
    let mut scan = TcpScan::new(&ips, &ports, 10, QSPrintMode::NonRealTime);
    assert!(scan.start().is_empty());
    assert!(scan.is_done());
    assert!(scan.into_results().is_empty());
}

#[test]
fn scan_refills_one_in_one_out() {
    let ips = vec![v4(10, 0, 0, 1), v4(10, 0, 0, 2)];
    let ports = vec![53, 54, 55];
    let mut scan = TcpScan::new(&ips, &ports, 2, QSPrintMode::RealTime);
    let mut pending = scan.start();
    assert_eq!(pending.len(), 2);
    assert_eq!(scan.in_flight_count(), 2);
    let mut launched: Vec<Endpoint> = pending.iter().map(|p| p.target).collect();
    while let Some(p) = pending.pop() {
        let state = if p.target.port == 53 {
            QScanTcpConnectState::Open
        } else {
            QScanTcpConnectState::Close
        };
        let c = scan.complete(p.slot, state);
        let expected = if p.target.port == 53 { Report::Address } else { Report::Silent };
        assert_eq!(c.report, expected);
        if let Some(n) = c.next {
            assert_eq!(n.slot, p.slot);
            launched.push(n.target);
            pending.insert(0, n);
        }
        assert!(scan.in_flight_count() <= 2);
    }
    assert!(scan.is_done());
    let results = scan.into_results();
    assert_eq!(results.len(), 6);
    for port in [53u16, 54, 55] {
        for ip in &ips {
            let n = results.iter().filter(|r| r.target.ip == *ip && r.target.port == port).count();
            assert_eq!(n, 1);
        }
    }
    for r in &results {
        assert_eq!(r.state == QScanTcpConnectState::Open, r.target.port == 53);
    }
    assert_eq!(launched[0].port, 53);
    assert_eq!(launched[1].port, 53);
}

#[test]
fn scan_batch_zero_is_one_and_stale_slot_ignored() {
    let ips = vec![v4(10, 0, 0, 1)];
    let ports = vec![1, 2];
    let mut scan = TcpScan::new(&ips, &ports, 0, QSPrintMode::RealTimeAll);
    let first = scan.start();
    assert_eq!(first.len(), 1);
    let stale = scan.complete(7, QScanTcpConnectState::Open);
    assert_eq!(stale.next, None);
    assert_eq!(stale.report, Report::Silent);
    let c = scan.complete(first[0].slot, QScanTcpConnectState::Close);
    assert_eq!(c.report, Report::AddressAndState);
    let next = c.next.unwrap();
    assert_eq!(next.target.port, 2);
    let c2 = scan.complete(next.slot, QScanTcpConnectState::Open);
    assert_eq!(c2.next, None);
    assert!(scan.is_done());
    assert_eq!(scan.into_results().len(), 2);
}

#[test]
fn fd_exhaustion_detection() {
    assert!(is_fd_exhaustion("Too many open files (os error 24)"));
    assert!(is_fd_exhaustion("TOO MANY OPEN FILES"));
    assert!(!is_fd_exhaustion("Connection refused (os error 111)"));
    assert!(!mentions_fd_exhaustion("TOO MANY OPEN FILES"));
    assert!(mentions_fd_exhaustion("x: too many open files"));
    assert!(!mentions_fd_exhaustion("too many open file"));
}

#[test]
fn probe_retries_then_closes() {
    let mut p = ProbeState::new(2);
    let s1 = p.on_attempt(AttemptEvent::Failed("Connection refused".to_string()), "10.0.0.1");
    assert_eq!(s1, ProbeStep::Retry);
    let s2 = p.on_attempt(AttemptEvent::TimedOut("deadline has elapsed".to_string()), "10.0.0.1");
    assert_eq!(
        s2,
        ProbeStep::Done(ProbeOutcome::Closed("deadline has elapsed 10.0.0.1".to_string()))
    );
}

#[test]
fn probe_zero_tries_is_one_attempt() {
    let mut p = ProbeState::new(0);
    let s = p.on_attempt(AttemptEvent::Failed("Connection refused".to_string()), "::1");
    assert_eq!(s, ProbeStep::Done(ProbeOutcome::Closed("Connection refused ::1".to_string())));
}

#[test]
fn probe_open_and_shutdown_failure() {
    let mut p = ProbeState::new(1);
    assert_eq!(
        p.on_attempt(AttemptEvent::Connected { shutdown_ok: true }, "1.2.3.4"),
        ProbeStep::Done(ProbeOutcome::Open)
    );
    let mut q = ProbeState::new(3);
    let s = q.on_attempt(AttemptEvent::Connected { shutdown_ok: false }, "1.2.3.4");
    assert_eq!(s, ProbeStep::Done(ProbeOutcome::Closed("shutdown failed".to_string())));
    if let ProbeStep::Done(o) = s {
        assert_eq!(o.state(), QScanTcpConnectState::Close);
    }
    assert_eq!(ProbeOutcome::Open.state(), QScanTcpConnectState::Open);
}

#[test]
fn probe_fd_exhaustion_is_fatal() {
    let mut p = ProbeState::new(5);
    let s = p.on_attempt(AttemptEvent::Failed("Too many open files (os error 24)".to_string()), "1.2.3.4");
    assert_eq!(s, ProbeStep::Fatal);
}
