//! Quick asynchronous network scanner: target expansion, the endpoint cursor,
//! and the decisions of the scan engine, with their contracts.
pub mod text;
pub mod unique;
pub mod ports;
pub mod hosts;
pub mod sockiter;
pub mod qscanner;
pub mod scan;
pub mod probe;

pub use hosts::{
    address_parse, addresses_parse, expand_cidr, host_targets, merge_host_groups, unique_hosts,
    CidrBlock, HostAddr, HostTarget,
};
pub use ports::{ports_parse, ports_spec_is_valid, try_ports_parse};
pub use probe::{is_fd_exhaustion, mentions_fd_exhaustion, AttemptEvent, ProbeOutcome, ProbeState, ProbeStep};
pub use qscanner::{QSPrintMode, QScanTcpConnectResult, QScanTcpConnectState, QScanType, QScanner};
pub use scan::{Completion, Probe, Report, TcpScan};
pub use sockiter::{Endpoint, SockIter};
