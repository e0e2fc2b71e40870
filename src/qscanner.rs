//! The configured scanner: its targets, its parameters, and the results of
//! the most recent scan.
use vstd::prelude::*;
use crate::hosts::{addresses_parse, parsed_literal_hosts, unique_hosts, HostAddr};
use crate::ports::{parsed_ports, ports_parse, ports_spec_valid};
use crate::sockiter::Endpoint;
use crate::unique::{
    lemma_unique_seq, lemma_unique_seq_append_present, lemma_unique_seq_of_distinct, unique_ports,
    unique_seq,
};

verus! {

/// Scanning mode.
#[derive(Clone, Copy, Debug, PartialEq, Eq, Structural)]
pub enum QScanType {
    TcpConnect,
}

/// When results are printed while a scan runs.
///
/// * `NonRealTime`: nothing is printed during the scan;
/// * `RealTime`: each open endpoint as soon as it is found;
/// * `RealTimeAll`: each endpoint, with its state, as soon as it is decided.
#[derive(Clone, Copy, Debug, PartialEq, Eq, Structural)]
pub enum QSPrintMode {
    NonRealTime,
    RealTime,
    RealTimeAll,
}

/// Possible states of a TCP connect target.
#[derive(Clone, Copy, Debug, PartialEq, Eq, Structural)]
pub enum QScanTcpConnectState {
    Open,
    Close,
}

/// Result of a TCP connect scan for a single target.
#[derive(Clone, Copy, Debug, PartialEq, Eq, Structural)]
pub struct QScanTcpConnectResult {
    pub target: Endpoint,
    pub state: QScanTcpConnectState,
}

pub const BATCH_DEF: u16 = 2500;

pub const TIMEOUT_DEF: u64 = 1000;

pub const TRIES_DEF: u8 = 1;

/// Asynchronous network scanner.
pub struct QScanner {
    ips: Vec<HostAddr>,
    ports: Vec<u16>,
    scan_type: QScanType,
    print_mode: QSPrintMode,
    batch: u16,
    timeout_ms: u64,
    tries: u8,
    last_results: Option<Vec<QScanTcpConnectResult>>,
}

/// What a scanner holds, as mathematical values.
pub ghost struct QScannerView {
    pub ips: Seq<HostAddr>,
    pub ports: Seq<u16>,
    pub scan_type: QScanType,
    pub print_mode: QSPrintMode,
    pub batch: u16,
    pub timeout_ms: u64,
    pub tries: u8,
    pub last_results: Option<Seq<QScanTcpConnectResult>>,
}

/// The targets are listed once each, and at least one probe runs at a time,
/// with at least one attempt per endpoint.
pub open spec fn scanner_inv(v: QScannerView) -> bool {
    &&& v.ips.no_duplicates()
    &&& v.ports.no_duplicates()
    &&& v.batch >= 1
    &&& v.tries >= 1
}

pub open spec fn at_least_one_u16(x: u16) -> u16 {
    if x == 0 {
        1
    } else {
        x
    }
}

pub open spec fn at_least_one_u8(x: u8) -> u8 {
    if x == 0 {
        1
    } else {
        x
    }
}

impl QScannerView {
    pub open spec fn with_scan_type(self, t: QScanType) -> QScannerView {
        QScannerView { scan_type: t, ..self }
    }

    pub open spec fn with_print_mode(self, m: QSPrintMode) -> QScannerView {
        QScannerView { print_mode: m, ..self }
    }

    pub open spec fn with_batch(self, batch: u16) -> QScannerView {
        QScannerView { batch: at_least_one_u16(batch), ..self }
    }

    pub open spec fn with_timeout_ms(self, ms: u64) -> QScannerView {
        QScannerView { timeout_ms: ms, ..self }
    }

    pub open spec fn with_tries(self, tries: u8) -> QScannerView {
        QScannerView { tries: at_least_one_u8(tries), ..self }
    }

    /// Replaces the targets, each kept once in order of first occurrence.
    pub open spec fn with_targets(self, ips: Seq<HostAddr>, ports: Seq<u16>) -> QScannerView {
        QScannerView { ips: unique_seq(ips), ports: unique_seq(ports), ..self }
    }

    /// Appends targets, each kept once in order of first occurrence.
    pub open spec fn with_added_targets(self, ips: Seq<HostAddr>, ports: Seq<u16>) -> QScannerView {
        QScannerView { ips: unique_seq(self.ips + ips), ports: unique_seq(self.ports + ports), ..self }
    }
}

impl View for QScanner {
    type V = QScannerView;

    closed spec fn view(&self) -> QScannerView {
        QScannerView {
            ips: self.ips@,
            ports: self.ports@,
            scan_type: self.scan_type,
            print_mode: self.print_mode,
            batch: self.batch,
            timeout_ms: self.timeout_ms,
            tries: self.tries,
            last_results: match self.last_results {
                Some(v) => Some(v@),
                None => None,
            },
        }
    }
}

impl QScanner {
    #[verifier::type_invariant]
    closed spec fn inv(self) -> bool {
        scanner_inv(self@)
    }

    /// A scanner of the literal targets of `addresses` on the ports of `ports`,
    /// with the default parameters. Host names and files in `addresses` are not
    /// looked up here: `host_targets` lists them for the caller to resolve.
    pub fn new(addresses: &str, ports: &str) -> (r: QScanner)
        requires
            ports_spec_valid(ports@),
        ensures
            r@ == (QScannerView {
                ips: parsed_literal_hosts(addresses@),
                ports: parsed_ports(ports@),
                scan_type: QScanType::TcpConnect,
                print_mode: QSPrintMode::NonRealTime,
                batch: BATCH_DEF,
                timeout_ms: TIMEOUT_DEF,
                tries: TRIES_DEF,
                last_results: None,
            }),
            scanner_inv(r@),
    {
        let ips = addresses_parse(addresses);
        let ps = ports_parse(ports);
        proof {
            lemma_unique_seq(crate::hosts::literal_addresses(crate::text::comma_tokens(addresses@)));
            lemma_unique_seq(crate::ports::port_list(ports@)->0);
        }
        QScanner {
            ips,
            ports: ps,
            scan_type: QScanType::TcpConnect,
            print_mode: QSPrintMode::NonRealTime,
            batch: BATCH_DEF,
            timeout_ms: TIMEOUT_DEF,
            tries: TRIES_DEF,
            last_results: None,
        }
    }

    /// Set the scanner type.
    pub fn set_scan_type(&mut self, scan_type: QScanType)
        ensures
            final(self)@ == old(self)@.with_scan_type(scan_type),
    {
        proof {
            use_type_invariant(&*self);
        }
        self.scan_type = scan_type;
    }

    /// Set the results printing mode.
    pub fn set_print_mode(&mut self, print_mode: QSPrintMode)
        ensures
            final(self)@ == old(self)@.with_print_mode(print_mode),
    {
        proof {
            use_type_invariant(&*self);
        }
        self.print_mode = print_mode;
    }

    /// Set the number of parallel probes; 0 is taken as 1.
    pub fn set_batch(&mut self, batch: u16)
        ensures
            final(self)@ == old(self)@.with_batch(batch),
    {
        proof {
            use_type_invariant(&*self);
        }
        self.batch = if batch == 0 {
            1
        } else {
            batch
        };
    }

    /// Set the timeout of each connect attempt, in milliseconds.
    pub fn set_timeout_ms(&mut self, to_ms: u64)
        ensures
            final(self)@ == old(self)@.with_timeout_ms(to_ms),
    {
        proof {
            use_type_invariant(&*self);
        }
        self.timeout_ms = to_ms;
    }

    /// Set how many attempts each endpoint gets; 0 is taken as 1.
    pub fn set_ntries(&mut self, ntries: u8)
        ensures
            final(self)@ == old(self)@.with_tries(ntries),
    {
        proof {
            use_type_invariant(&*self);
        }
        self.tries = if ntries == 0 {
            1
        } else {
            ntries
        };
    }

    pub fn get_scan_type(&self) -> (r: QScanType)
        ensures
            r == self@.scan_type,
    {
        self.scan_type
    }

    pub fn get_print_mode(&self) -> (r: QSPrintMode)
        ensures
            r == self@.print_mode,
    {
        self.print_mode
    }

    pub fn get_batch(&self) -> (r: u16)
        ensures
            r == self@.batch,
            r >= 1,
    {
        proof {
            use_type_invariant(self);
        }
        self.batch
    }

    pub fn get_timeout_ms(&self) -> (r: u64)
        ensures
            r == self@.timeout_ms,
    {
        self.timeout_ms
    }

    pub fn get_ntries(&self) -> (r: u8)
        ensures
            r == self@.tries,
            r >= 1,
    {
        proof {
            use_type_invariant(self);
        }
        self.tries
    }

    /// The results of the most recent scan, if any is kept.
    pub fn get_last_results(&self) -> (r: Option<&Vec<QScanTcpConnectResult>>)
        ensures
            r is Some <==> self@.last_results is Some,
            r matches Some(v) ==> v@ == self@.last_results->0,
    {
        match &self.last_results {
            Some(res) => Some(res),
            None => None,
        }
    }

    /// Forget the results of the most recent scan.
    pub fn reset_last_results(&mut self)
        ensures
            final(self)@ == (QScannerView { last_results: None, ..old(self)@ }),
    {
        proof {
            use_type_invariant(&*self);
        }
        self.last_results = None;
    }

    /// Keep `results` as the results of the most recent scan.
    pub fn set_last_results(&mut self, results: Vec<QScanTcpConnectResult>)
        ensures
            final(self)@ == (QScannerView { last_results: Some(results@), ..old(self)@ }),
    {
        proof {
            use_type_invariant(&*self);
        }
        self.last_results = Some(results);
    }

    /// The target addresses.
    pub fn get_tagets_ips(&self) -> (r: &Vec<HostAddr>)
        ensures
            r@ == self@.ips,
            r@.no_duplicates(),
    {
        proof {
            use_type_invariant(self);
        }
        &self.ips
    }

    /// The target ports.
    pub fn get_tagets_ports(&self) -> (r: &Vec<u16>)
        ensures
            r@ == self@.ports,
            r@.no_duplicates(),
    {
        proof {
            use_type_invariant(self);
        }
        &self.ports
    }

    /// Replace the targets by the literal hosts of `addresses` and the ports of `ports`.
    pub fn set_targets(&mut self, addresses: &str, ports: &str)
        requires
            ports_spec_valid(ports@),
        ensures
            final(self)@ == old(self)@.with_targets(
                parsed_literal_hosts(addresses@),
                parsed_ports(ports@),
            ),
    {
        let ips = addresses_parse(addresses);
        let ps = ports_parse(ports);
        self.set_vec_targets(ips, ps);
    }

    /// Add the literal hosts of `addresses` and the ports of `ports` to the targets.
    pub fn add_targets(&mut self, addresses: &str, ports: &str)
        requires
            ports_spec_valid(ports@),
        ensures
            final(self)@ == old(self)@.with_added_targets(
                parsed_literal_hosts(addresses@),
                parsed_ports(ports@),
            ),
    {
        let ips = addresses_parse(addresses);
        let ps = ports_parse(ports);
        self.add_vec_targets(ips, ps);
    }

    /// Replace the targets; repetitions are dropped, first occurrences kept in order.
    pub fn set_vec_targets(&mut self, ips: Vec<HostAddr>, ports: Vec<u16>)
        ensures
            final(self)@ == old(self)@.with_targets(ips@, ports@),
    {
        proof {
            use_type_invariant(&*self);
            lemma_unique_seq(ips@);
            lemma_unique_seq(ports@);
        }
        self.ips = unique_hosts(&ips);
        self.ports = unique_ports(&ports);
    }

    /// Add targets after the present ones; repetitions are dropped, first
    /// occurrences kept in order.
    pub fn add_vec_targets(&mut self, ips: Vec<HostAddr>, ports: Vec<u16>)
        ensures
            final(self)@ == old(self)@.with_added_targets(ips@, ports@),
    {
        let mut all_ips = self.ips.clone();
        let mut more_ips = ips;
        all_ips.append(&mut more_ips);
        let mut all_ports = self.ports.clone();
        let mut more_ports = ports;
        all_ports.append(&mut more_ports);
        proof {
            use_type_invariant(&*self);
            lemma_unique_seq(all_ips@);
            lemma_unique_seq(all_ports@);
        }
        self.ips = unique_hosts(&all_ips);
        self.ports = unique_ports(&all_ports);
    }
}

/// Every mutator keeps the targets listed once each, `batch ≥ 1` and `tries ≥ 1`,
/// whatever its arguments (`set_batch(0)` and `set_ntries(0)` give 1).
pub proof fn lemma_mutators_keep_inv(
    v: QScannerView,
    t: QScanType,
    m: QSPrintMode,
    batch: u16,
    ms: u64,
    tries: u8,
    ips: Seq<HostAddr>,
    ports: Seq<u16>,
)
    requires
        scanner_inv(v),
    ensures
        scanner_inv(v.with_scan_type(t)),
        scanner_inv(v.with_print_mode(m)),
        scanner_inv(v.with_batch(batch)),
        scanner_inv(v.with_timeout_ms(ms)),
        scanner_inv(v.with_tries(tries)),
        scanner_inv(v.with_targets(ips, ports)),
        scanner_inv(v.with_added_targets(ips, ports)),
        v.with_tries(0).tries == 1,
        v.with_batch(0).batch == 1,
{
    lemma_unique_seq(ips);
    lemma_unique_seq(ports);
    lemma_unique_seq(v.ips + ips);
    lemma_unique_seq(v.ports + ports);
}

/// Calling a setter twice with the same arguments leaves the scanner as one call does.
pub proof fn lemma_setters_idempotent(
    v: QScannerView,
    t: QScanType,
    m: QSPrintMode,
    batch: u16,
    ms: u64,
    tries: u8,
    ips: Seq<HostAddr>,
    ports: Seq<u16>,
)
    requires
        scanner_inv(v),
    ensures
        v.with_scan_type(t).with_scan_type(t) == v.with_scan_type(t),
        v.with_print_mode(m).with_print_mode(m) == v.with_print_mode(m),
        v.with_batch(batch).with_batch(batch) == v.with_batch(batch),
        v.with_timeout_ms(ms).with_timeout_ms(ms) == v.with_timeout_ms(ms),
        v.with_tries(tries).with_tries(tries) == v.with_tries(tries),
        v.with_targets(ips, ports).with_targets(ips, ports) == v.with_targets(ips, ports),
        v.with_added_targets(ips, ports).with_added_targets(ips, ports) == v.with_added_targets(ips, ports),
{
    lemma_add_twice(v.ips, ips);
    lemma_add_twice(v.ports, ports);
}

proof fn lemma_add_twice<T>(a: Seq<T>, b: Seq<T>)
    ensures
        unique_seq(unique_seq(a + b) + b) == unique_seq(a + b),
{
    let u = unique_seq(a + b);
    lemma_unique_seq(a + b);
    assert forall|x: T| b.contains(x) implies u.contains(x) by {
        let k = choose|k: int| 0 <= k < b.len() && b[k] == x;
        assert((a + b)[a.len() + k] == x);
    }
    lemma_unique_seq_append_present(u, b);
    lemma_unique_seq_of_distinct(u);
}

/// Adding targets that are all present already leaves the scanner unchanged.
pub proof fn lemma_add_present_is_noop(v: QScannerView, ips: Seq<HostAddr>, ports: Seq<u16>)
    requires
        scanner_inv(v),
        forall|x: HostAddr| ips.contains(x) ==> v.ips.contains(x),
        forall|p: u16| ports.contains(p) ==> v.ports.contains(p),
    ensures
        v.with_added_targets(ips, ports) == v,
{
    lemma_unique_seq_append_present(v.ips, ips);
    lemma_unique_seq_append_present(v.ports, ports);
    lemma_unique_seq_of_distinct(v.ips);
    lemma_unique_seq_of_distinct(v.ports);
}

} // verus!
