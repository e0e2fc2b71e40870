use qscan::{HostAddr, QSPrintMode, QScanTcpConnectResult, QScanTcpConnectState, QScanType, QScanner};

fn v4(a: u8, b: u8, c: u8, d: u8) -> HostAddr {
    HostAddr::v4(a, b, c, d)
}

#[test]
fn set_new_targets() {
    let mut scanner = QScanner::new("", "");
    scanner.set_targets("1.1.1.1", "80");
    assert_eq!(*scanner.get_tagets_ips(), vec![v4(1, 1, 1, 1)]);
    assert_eq!(*scanner.get_tagets_ports(), vec![80]);
}

#[test]
fn add_new_targets() {
    let mut scanner = QScanner::new("127.0.0.1", "80");
    scanner.add_targets("127.0.0.0/30,192.168.1.1", "79-80,81");
    assert_eq!(
        *scanner.get_tagets_ips(),
        vec![
            v4(127, 0, 0, 1),
            v4(127, 0, 0, 0),
            v4(127, 0, 0, 2),
            v4(127, 0, 0, 3),
            v4(192, 168, 1, 1),
        ]
    );
    assert_eq!(*scanner.get_tagets_ports(), vec![80, 79, 81]);
}

#[test]
fn set_vec_new_targets() {
    let mut scanner = QScanner::new("", "");
    let target_ips = vec![v4(127, 0, 0, 1)];
    let target_ports = vec![80];
    scanner.set_vec_targets(target_ips, target_ports);
    assert_eq!(*scanner.get_tagets_ips(), vec![v4(127, 0, 0, 1)]);
    assert_eq!(*scanner.get_tagets_ports(), vec![80]);
}

#[test]
fn add_vec_new_targets() {
    let mut scanner = QScanner::new("127.0.0.1", "80");
    let target_ips = vec![v4(127, 0, 0, 2), v4(127, 0, 0, 1)];
    let target_ports = vec![443, 80, 53];
    scanner.add_vec_targets(target_ips, target_ports);
    assert_eq!(*scanner.get_tagets_ips(), vec![v4(127, 0, 0, 1), v4(127, 0, 0, 2)]);
    assert_eq!(*scanner.get_tagets_ports(), vec![80, 443, 53]);
}

#[test]
fn scanner_defaults() {
    let scanner = QScanner::new("10.0.0.1", "22");
    assert_eq!(scanner.get_scan_type(), QScanType::TcpConnect);
    assert_eq!(scanner.get_print_mode(), QSPrintMode::NonRealTime);
    assert_eq!(scanner.get_batch(), 2500);
    assert_eq!(scanner.get_timeout_ms(), 1000);
    assert_eq!(scanner.get_ntries(), 1);
    assert!(scanner.get_last_results().is_none());
}

#[test]
fn zero_tries_and_batch_become_one() {
    let mut scanner = QScanner::new("", "");
    scanner.set_ntries(0);
    assert_eq!(scanner.get_ntries(), 1);
    scanner.set_batch(0);
    assert_eq!(scanner.get_batch(), 1);
    scanner.set_ntries(3);
    assert_eq!(scanner.get_ntries(), 3);
    scanner.set_batch(100);
    assert_eq!(scanner.get_batch(), 100);
}

#[test]
fn setters_twice_same_as_once() {
    let mut once = QScanner::new("10.0.0.1", "22");
    let mut twice = QScanner::new("10.0.0.1", "22");
    once.set_timeout_ms(250);
    twice.set_timeout_ms(250);
    twice.set_timeout_ms(250);
    once.set_print_mode(QSPrintMode::RealTimeAll);
    twice.set_print_mode(QSPrintMode::RealTimeAll);
    twice.set_print_mode(QSPrintMode::RealTimeAll);
    once.add_targets("10.0.0.2,10.0.0.1", "23,22");
    twice.add_targets("10.0.0.2,10.0.0.1", "23,22");
    twice.add_targets("10.0.0.2,10.0.0.1", "23,22");
    assert_eq!(once.get_timeout_ms(), twice.get_timeout_ms());
    assert_eq!(once.get_print_mode(), twice.get_print_mode());
    assert_eq!(once.get_tagets_ips(), twice.get_tagets_ips());
    assert_eq!(once.get_tagets_ports(), twice.get_tagets_ports());
    assert_eq!(*twice.get_tagets_ips(), vec![v4(10, 0, 0, 1), v4(10, 0, 0, 2)]);
    assert_eq!(*twice.get_tagets_ports(), vec![22, 23]);
}

#[test]
fn add_present_targets_changes_nothing() {
    let mut scanner = QScanner::new("10.0.0.0/31", "22,80");
    scanner.add_targets("10.0.0.1", "80,22,80");
    assert_eq!(*scanner.get_tagets_ips(), vec![v4(10, 0, 0, 0), v4(10, 0, 0, 1)]);
    assert_eq!(*scanner.get_tagets_ports(), vec![22, 80]);
}

#[test]
fn set_vec_targets_drops_repetitions() {
    let mut scanner = QScanner::new("", "");
    scanner.set_vec_targets(vec![v4(1, 1, 1, 1), v4(1, 1, 1, 1)], vec![8, 8, 9]);
    assert_eq!(*scanner.get_tagets_ips(), vec![v4(1, 1, 1, 1)]);
    assert_eq!(*scanner.get_tagets_ports(), vec![8, 9]);
}

#[test]
fn last_results_kept_and_reset() {
    let mut scanner = QScanner::new("10.0.0.1", "22");
    let r = QScanTcpConnectResult {
        target: qscan::Endpoint { ip: v4(10, 0, 0, 1), port: 22 },
        state: QScanTcpConnectState::Open,
    };
    scanner.set_last_results(vec![r]);
    assert_eq!(scanner.get_last_results(), Some(&vec![r]));
    scanner.reset_last_results();
    assert_eq!(scanner.get_last_results(), None);
}
