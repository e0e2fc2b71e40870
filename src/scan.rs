//! The decisions of a TCP connect scan: which endpoint to probe next, in which
//! slot, and what to report when a probe ends. The caller runs the probes; at
//! most `batch` of them are in flight, and each completion frees its slot for
//! the next endpoint at once.
use vstd::prelude::*;
use crate::hosts::HostAddr;
use crate::qscanner::{QSPrintMode, QScanTcpConnectResult, QScanTcpConnectState};
use crate::sockiter::{product, Endpoint, SockIter};

verus! {

/// A probe to launch: the endpoint, and the slot that it occupies until it ends.
#[derive(Clone, Copy, Debug, PartialEq, Eq, Structural)]
pub struct Probe {
    pub slot: usize,
    pub target: Endpoint,
}

/// What to print when a probe ends.
#[derive(Clone, Copy, Debug, PartialEq, Eq, Structural)]
pub enum Report {
    /// Nothing.
    Silent,
    /// `ip:port`.
    Address,
    /// `ip:port:OPEN` or `ip:port:CLOSED`.
    AddressAndState,
}

/// The report for an endpoint found in `state` under the print mode `mode`.
pub open spec fn report_for(mode: QSPrintMode, state: QScanTcpConnectState) -> Report {
    match mode {
        QSPrintMode::NonRealTime => Report::Silent,
        QSPrintMode::RealTime => if state == QScanTcpConnectState::Open {
            Report::Address
        } else {
            Report::Silent
        },
        QSPrintMode::RealTimeAll => Report::AddressAndState,
    }
}

/// The outcome of handing a completion to the scan.
#[derive(Clone, Copy, Debug, PartialEq, Eq, Structural)]
pub struct Completion {
    /// The probe to launch in the freed slot, if an endpoint is left.
    pub next: Option<Probe>,
    pub report: Report,
}

/// `results` holds one result for every endpoint of `ports × hosts`.
pub open spec fn covers_product(results: Seq<QScanTcpConnectResult>, hosts: Seq<HostAddr>, ports: Seq<u16>) -> bool {
    let prod = product(hosts, ports);
    &&& results.len() == hosts.len() * ports.len()
    &&& forall|k: int| 0 <= k < prod.len() ==> exists|i: int| 0 <= i < results.len() && #[trigger] results[i].target == #[trigger] prod[k]
    &&& forall|i: int| 0 <= i < results.len() ==> prod.contains(#[trigger] results[i].target)
}

/// No two results are about the same endpoint.
pub open spec fn targets_distinct(results: Seq<QScanTcpConnectResult>) -> bool {
    forall|i: int, j: int| 0 <= i < results.len() && 0 <= j < results.len() && i != j ==> #[trigger] results[i].target != #[trigger] results[j].target
}

/// The scan of `ports × hosts` in progress.
pub struct TcpScan<'a> {
    cursor: SockIter<'a>,
    batch: usize,
    print_mode: QSPrintMode,
    slots: Vec<Option<Endpoint>>,
    in_flight: usize,
    results: Vec<QScanTcpConnectResult>,
    slot_idx: Ghost<Seq<int>>,
    res_idx: Ghost<Seq<int>>,
    active: Ghost<Set<int>>,
}

impl<'a> TcpScan<'a> {
    pub closed spec fn hosts(&self) -> Seq<HostAddr> {
        self.cursor.hosts()
    }

    pub closed spec fn ports(&self) -> Seq<u16> {
        self.cursor.port_seq()
    }

    pub closed spec fn batch(&self) -> int {
        self.batch as int
    }

    pub closed spec fn print_mode(&self) -> QSPrintMode {
        self.print_mode
    }

    /// How many endpoints have been launched so far.
    pub closed spec fn launched(&self) -> int {
        self.cursor.pos()
    }

    /// How many probes are in flight.
    pub closed spec fn in_flight(&self) -> int {
        self.in_flight as int
    }

    /// Whether `slot` holds a probe in flight.
    pub closed spec fn busy(&self, slot: int) -> bool {
        self.active@.contains(slot)
    }

    /// The endpoint whose probe occupies `slot`.
    pub closed spec fn slot_target(&self, slot: int) -> Endpoint {
        self.slots@[slot]->0
    }

    /// How many slots exist; each completion reuses its slot.
    pub closed spec fn slot_count(&self) -> int {
        self.slots.len() as int
    }

    pub closed spec fn results(&self) -> Seq<QScanTcpConnectResult> {
        self.results@
    }

    /// Every endpoint was launched and no probe is in flight.
    pub open spec fn done(&self) -> bool {
        self.launched() == self.hosts().len() * self.ports().len() && self.in_flight() == 0
    }

    pub closed spec fn wf(&self) -> bool {
        let pos = self.cursor.pos();
        let prod = product(self.cursor.hosts(), self.cursor.port_seq());
        let act = self.active@;
        let si = self.slot_idx@;
        let ri = self.res_idx@;
        &&& self.cursor.wf()
        &&& 1 <= self.batch
        &&& self.slots.len() <= self.batch
        &&& self.in_flight <= self.slots.len()
        &&& act.finite()
        &&& act.len() == self.in_flight
        &&& si.len() == self.slots.len()
        &&& ri.len() == self.results.len()
        &&& self.results.len() + self.in_flight == pos
        &&& forall|s: int| 0 <= s < self.slots.len() ==> (self.slots@[s] is Some <==> #[trigger] act.contains(s))
        &&& forall|s: int| #[trigger] act.contains(s) ==> 0 <= s < self.slots.len()
        &&& forall|s: int| #[trigger] act.contains(s) ==> 0 <= si[s] < pos && self.slots@[s] == Some(prod[si[s]])
        &&& forall|s1: int, s2: int| #[trigger] act.contains(s1) && #[trigger] act.contains(s2) && s1 != s2 ==> si[s1] != si[s2]
        &&& forall|i: int| 0 <= i < ri.len() ==> 0 <= #[trigger] ri[i] < pos && self.results@[i].target == prod[ri[i]]
        &&& ri.no_duplicates()
        &&& forall|i: int, s: int| 0 <= i < ri.len() && #[trigger] act.contains(s) ==> #[trigger] ri[i] != si[s]
        &&& forall|k: int| 0 <= k < pos ==> #[trigger] ri.contains(k) || exists|s: int| #[trigger] act.contains(s) && si[s] == k
    }

    /// A scan of `ports × ips`, `batch` probes at a time (0 is taken as 1), that
    /// reports under `print_mode`. Nothing is launched yet.
    pub fn new(ips: &'a Vec<HostAddr>, ports: &'a Vec<u16>, batch: u16, print_mode: QSPrintMode) -> (r: TcpScan<'a>)
        ensures
            r.wf(),
            r.hosts() == ips@,
            r.ports() == ports@,
            r.batch() == (if batch == 0 { 1 } else { batch as int }),
            r.print_mode() == print_mode,
            r.launched() == 0,
            r.in_flight() == 0,
            r.slot_count() == 0,
            r.results() == Seq::<QScanTcpConnectResult>::empty(),
    {
        let cursor = SockIter::new(ips.as_slice(), ports.as_slice());
        TcpScan {
            cursor,
            batch: if batch == 0 { 1 } else { batch as usize },
            print_mode,
            slots: Vec::new(),
            in_flight: 0,
            results: Vec::new(),
            slot_idx: Ghost(Seq::empty()),
            res_idx: Ghost(Seq::empty()),
            active: Ghost(Set::empty()),
        }
    }

    /// The number of probes in flight.
    pub fn in_flight_count(&self) -> (r: usize)
        requires
            self.wf(),
        ensures
            r == self.in_flight(),
            r <= self.batch(),
    {
        self.in_flight
    }

    /// Launches endpoints into fresh slots until `batch` slots exist or no
    /// endpoint is left, and returns the probes to start: on a new scan, the
    /// first `min(batch, |hosts| · |ports|)` endpoints.
    pub fn start(&mut self) -> (r: Vec<Probe>)
        requires
            old(self).wf(),
        ensures
            final(self).wf(),
            final(self).hosts() == old(self).hosts(),
            final(self).ports() == old(self).ports(),
            final(self).batch() == old(self).batch(),
            final(self).print_mode() == old(self).print_mode(),
            final(self).results() == old(self).results(),
            final(self).in_flight() == old(self).in_flight() + r.len(),
            final(self).launched() == old(self).launched() + r.len(),
            final(self).slot_count() == old(self).slot_count() + r.len(),
            r.len() == vstd::math::min(
                old(self).batch() - old(self).slot_count(),
                old(self).hosts().len() * old(self).ports().len() - old(self).launched(),
            ),
            forall|i: int| 0 <= i < r.len() ==> #[trigger] r[i].target == product(old(self).hosts(), old(self).ports())[old(self).launched() + i],
            forall|i: int| 0 <= i < r.len() ==> final(self).busy(#[trigger] r[i].slot as int) && final(self).slot_target(r[i].slot as int) == r[i].target,
    {
        broadcast use vstd::set::group_set_axioms;
        let mut r: Vec<Probe> = Vec::new();
        let ghost pos0 = self.cursor.pos();
        let ghost prod = product(self.cursor.hosts(), self.cursor.port_seq());
        while self.slots.len() < self.batch
            invariant
                self.wf(),
                self.cursor.hosts() == old(self).cursor.hosts(),
                self.cursor.port_seq() == old(self).cursor.port_seq(),
                prod == product(self.cursor.hosts(), self.cursor.port_seq()),
                self.batch == old(self).batch,
                self.print_mode == old(self).print_mode,
                self.results@ == old(self).results@,
                self.in_flight == old(self).in_flight + r.len(),
                self.cursor.pos() == pos0 + r.len(),
                self.slots.len() == old(self).slots.len() + r.len(),
                pos0 == old(self).cursor.pos(),
                forall|i: int| 0 <= i < r.len() ==> #[trigger] r[i].target == prod[pos0 + i],
                forall|i: int| 0 <= i < r.len() ==> self.active@.contains(#[trigger] r[i].slot as int) && self.slots@[r[i].slot as int] == Some(r[i].target),
            ensures
                self.slots.len() >= self.batch || self.cursor.pos() >= self.cursor.total(),
            decreases self.batch - self.slots.len(),
        {
            proof {
                self.cursor.lemma_pos_bounds();
            }
            let ghost pos = self.cursor.pos();
            match self.cursor.next() {
                Some(e) => {
                    let slot = self.slots.len();
                    let ghost act = self.active@;
                    let ghost si = self.slot_idx@;
                    self.slots.push(Some(e));
                    proof {
                        assert(!act.contains(slot as int));
                        self.slot_idx@ = si.push(pos);
                        self.active@ = act.insert(slot as int);
                        assert forall|k: int| 0 <= k < pos + 1 implies #[trigger] self.res_idx@.contains(k) || exists|s: int| #[trigger] self.active@.contains(s) && self.slot_idx@[s] == k by {
                            if k == pos {
                                assert(self.active@.contains(slot as int) && self.slot_idx@[slot as int] == k);
                            } else if !self.res_idx@.contains(k) {
                                let s = choose|s: int| act.contains(s) && si[s] == k;
                                assert(self.active@.contains(s) && self.slot_idx@[s] == k);
                            }
                        }
                        assert forall|i: int| 0 <= i < r.len() implies self.active@.contains(#[trigger] r[i].slot as int) && self.slots@[r[i].slot as int] == Some(r[i].target) by {
                            assert(act.contains(r[i].slot as int));
                        }
                    }
                    self.in_flight = self.in_flight + 1;
                    r.push(Probe { slot, target: e });
                    assert(self.active@.len() == self.in_flight);
                    assert(self.results.len() + self.in_flight == self.cursor.pos());
                    assert(forall|s: int| 0 <= s < self.slots.len() ==> (self.slots@[s] is Some <==> #[trigger] self.active@.contains(s)));
                    assert(forall|s: int| #[trigger] self.active@.contains(s) ==> 0 <= s < self.slots.len());
                    assert(forall|s: int| #[trigger] self.active@.contains(s) ==> 0 <= self.slot_idx@[s] < self.cursor.pos() && self.slots@[s] == Some(prod[self.slot_idx@[s]]));
                    assert(forall|s1: int, s2: int| #[trigger] self.active@.contains(s1) && #[trigger] self.active@.contains(s2) && s1 != s2 ==> self.slot_idx@[s1] != self.slot_idx@[s2]);
                    assert(forall|i: int, s: int| 0 <= i < self.res_idx@.len() && #[trigger] self.active@.contains(s) ==> #[trigger] self.res_idx@[i] != self.slot_idx@[s]);
                },
                None => {
                    break;
                },
            }
        }
        proof {
            self.cursor.lemma_pos_bounds();
        }
        r
    }

    /// Records that the probe in `slot` ended in `state`, and launches the next
    /// endpoint, if any, in the same slot. A slot that holds no probe is ignored.
    pub fn complete(&mut self, slot: usize, state: QScanTcpConnectState) -> (c: Completion)
        requires
            old(self).wf(),
        ensures
            final(self).wf(),
            final(self).hosts() == old(self).hosts(),
            final(self).ports() == old(self).ports(),
            final(self).batch() == old(self).batch(),
            final(self).print_mode() == old(self).print_mode(),
            !old(self).busy(slot as int) ==> {
                &&& c == (Completion { next: None, report: Report::Silent })
                &&& final(self).results() == old(self).results()
                &&& final(self).launched() == old(self).launched()
                &&& final(self).in_flight() == old(self).in_flight()
            },
            old(self).busy(slot as int) ==> {
                &&& final(self).results() == old(self).results().push(
                    QScanTcpConnectResult { target: old(self).slot_target(slot as int), state },
                )
                &&& c.report == report_for(old(self).print_mode(), state)
                &&& old(self).launched() < old(self).hosts().len() * old(self).ports().len() ==> {
                    &&& c.next == Some(Probe { slot, target: product(old(self).hosts(), old(self).ports())[old(self).launched()] })
                    &&& final(self).launched() == old(self).launched() + 1
                    &&& final(self).in_flight() == old(self).in_flight()
                    &&& final(self).busy(slot as int)
                    &&& final(self).slot_target(slot as int) == c.next->0.target
                }
                &&& old(self).launched() >= old(self).hosts().len() * old(self).ports().len() ==> {
                    &&& c.next is None
                    &&& final(self).launched() == old(self).launched()
                    &&& final(self).in_flight() == old(self).in_flight() - 1
                    &&& !final(self).busy(slot as int)
                }
            },
    {
        broadcast use vstd::set::group_set_axioms;
        if slot >= self.slots.len() {
            return Completion { next: None, report: Report::Silent };
        }
        let e = match self.slots[slot] {
            Some(e) => e,
            None => {
                return Completion { next: None, report: Report::Silent };
            },
        };
        let ghost pos = self.cursor.pos();
        let ghost prod = product(self.cursor.hosts(), self.cursor.port_seq());
        let ghost act = self.active@;
        let ghost si = self.slot_idx@;
        let ghost ri = self.res_idx@;
        let ghost done_k = si[slot as int];
        assert(act.contains(slot as int));
        self.results.push(QScanTcpConnectResult { target: e, state });
        proof {
            self.res_idx@ = ri.push(done_k);
            assert forall|i: int, j: int| 0 <= i < self.res_idx@.len() && 0 <= j < self.res_idx@.len() && i != j
                implies self.res_idx@[i] != self.res_idx@[j] by {
                if i < ri.len() && j < ri.len() {
                } else if i < ri.len() {
                    assert(ri[i] != si[slot as int]);
                } else {
                    assert(ri[j] != si[slot as int]);
                }
            }
            self.cursor.lemma_pos_bounds();
        }
        let report = match self.print_mode {
            QSPrintMode::NonRealTime => Report::Silent,
            QSPrintMode::RealTime => match state {
                QScanTcpConnectState::Open => Report::Address,
                QScanTcpConnectState::Close => Report::Silent,
            },
            QSPrintMode::RealTimeAll => Report::AddressAndState,
        };
        match self.cursor.next() {
            Some(e2) => {
                self.slots.set(slot, Some(e2));
                proof {
                    self.slot_idx@ = si.update(slot as int, pos);
                    assert forall|k: int| 0 <= k < pos + 1 implies #[trigger] self.res_idx@.contains(k) || exists|s: int| #[trigger] self.active@.contains(s) && self.slot_idx@[s] == k by {
                        if k == pos {
                            assert(self.active@.contains(slot as int) && self.slot_idx@[slot as int] == k);
                        } else if k == done_k {
                            assert(self.res_idx@[ri.len() as int] == k);
                        } else if ri.contains(k) {
                            let i = choose|i: int| 0 <= i < ri.len() && ri[i] == k;
                            assert(self.res_idx@[i] == k);
                        } else {
                            let s = choose|s: int| act.contains(s) && si[s] == k;
                            assert(s != slot);
                            assert(self.active@.contains(s) && self.slot_idx@[s] == k);
                        }
                    }
                    assert forall|i: int, s: int| 0 <= i < self.res_idx@.len() && #[trigger] self.active@.contains(s)
                        implies #[trigger] self.res_idx@[i] != self.slot_idx@[s] by {
                        if i < ri.len() {
                            if s != slot {
                                assert(ri[i] != si[s]);
                            }
                        } else if s != slot {
                            assert(si[slot as int] != si[s]);
                        }
                    }
                    assert(forall|s: int| #[trigger] self.active@.contains(s) ==> 0 <= self.slot_idx@[s] < self.cursor.pos() && self.slots@[s] == Some(prod[self.slot_idx@[s]]));
                    assert(forall|s1: int, s2: int| #[trigger] self.active@.contains(s1) && #[trigger] self.active@.contains(s2) && s1 != s2 ==> self.slot_idx@[s1] != self.slot_idx@[s2]);
                    assert(forall|s: int| 0 <= s < self.slots.len() ==> (self.slots@[s] is Some <==> #[trigger] self.active@.contains(s)));
                }
                Completion { next: Some(Probe { slot, target: e2 }), report }
            },
            None => {
                self.slots.set(slot, None);
                proof {
                    self.active@ = act.remove(slot as int);
                    assert forall|k: int| 0 <= k < pos implies #[trigger] self.res_idx@.contains(k) || exists|s: int| #[trigger] self.active@.contains(s) && self.slot_idx@[s] == k by {
                        if k == done_k {
                            assert(self.res_idx@[ri.len() as int] == k);
                        } else if ri.contains(k) {
                            let i = choose|i: int| 0 <= i < ri.len() && ri[i] == k;
                            assert(self.res_idx@[i] == k);
                        } else {
                            let s = choose|s: int| act.contains(s) && si[s] == k;
                            assert(s != slot);
                            assert(self.active@.contains(s) && self.slot_idx@[s] == k);
                        }
                    }
                    assert forall|i: int, s: int| 0 <= i < self.res_idx@.len() && #[trigger] self.active@.contains(s)
                        implies #[trigger] self.res_idx@[i] != self.slot_idx@[s] by {
                        if i < ri.len() {
                            assert(ri[i] != si[s]);
                        } else {
                            assert(si[slot as int] != si[s]);
                        }
                    }
                    assert(forall|s: int| 0 <= s < self.slots.len() ==> (self.slots@[s] is Some <==> #[trigger] self.active@.contains(s)));
                }
                self.in_flight = self.in_flight - 1;
                Completion { next: None, report }
            },
        }
    }

    /// Whether every endpoint was launched and every probe has ended.
    pub fn is_done(&self) -> (r: bool)
        requires
            self.wf(),
        ensures
            r == self.done(),
    {
        proof {
            self.cursor.lemma_pos_bounds();
        }
        self.in_flight == 0 && self.cursor.is_exhausted()
    }

    /// The results gathered so far, in order of completion.
    pub fn into_results(self) -> (r: Vec<QScanTcpConnectResult>)
        requires
            self.wf(),
        ensures
            r@ == self.results(),
            self.done() ==> covers_product(r@, self.hosts(), self.ports()),
            self.done() && self.hosts().no_duplicates() && self.ports().no_duplicates()
                ==> targets_distinct(r@),
    {
        proof {
            if self.done() {
                lemma_finished_scan(&self);
            }
        }
        self.results
    }
}

/// With distinct hosts and distinct ports, the endpoints of the product are distinct.
pub proof fn lemma_product_distinct(hosts: Seq<HostAddr>, ports: Seq<u16>)
    requires
        hosts.no_duplicates(),
        ports.no_duplicates(),
    ensures
        product(hosts, ports).no_duplicates(),
{
    let prod = product(hosts, ports);
    let h = hosts.len() as int;
    assert forall|k1: int, k2: int| 0 <= k1 < prod.len() && 0 <= k2 < prod.len() && k1 != k2
        implies prod[k1] != prod[k2] by {
        assert(h > 0);
        vstd::arithmetic::div_mod::lemma_mod_pos_bound(k1, h);
        vstd::arithmetic::div_mod::lemma_mod_pos_bound(k2, h);
        vstd::arithmetic::div_mod::lemma_fundamental_div_mod(k1, h);
        vstd::arithmetic::div_mod::lemma_fundamental_div_mod(k2, h);
        vstd::arithmetic::div_mod::lemma_div_pos_is_pos(k1, h);
        vstd::arithmetic::div_mod::lemma_div_pos_is_pos(k2, h);
        lemma_div_below(k1, h, ports.len() as int);
        lemma_div_below(k2, h, ports.len() as int);
        if prod[k1] == prod[k2] {
            assert(hosts[k1 % h] == hosts[k2 % h]);
            assert(k1 % h == k2 % h);
            assert(ports[k1 / h] == ports[k2 / h]);
            assert(k1 / h == k2 / h);
        }
    }
}

proof fn lemma_div_below(k: int, h: int, p: int)
    requires
        0 <= k < h * p,
        h > 0,
    ensures
        k / h < p,
{
    vstd::arithmetic::div_mod::lemma_fundamental_div_mod(k, h);
    vstd::arithmetic::div_mod::lemma_mod_pos_bound(k, h);
    let q = k / h;
    if q >= p {
        assert(h * q >= h * p) by (nonlinear_arith)
            requires
                q >= p,
                h > 0,
        ;
    }
}

/// A finished scan holds one result for every endpoint of `ports × hosts`, and
/// with distinct hosts and ports, no endpoint twice: every endpoint appears
/// exactly once, and there are `|hosts| · |ports|` results.
pub proof fn lemma_finished_scan(scan: &TcpScan)
    requires
        scan.wf(),
        scan.done(),
    ensures
        covers_product(scan.results(), scan.hosts(), scan.ports()),
        scan.hosts().no_duplicates() && scan.ports().no_duplicates() ==> targets_distinct(scan.results()),
{
    let prod = product(scan.hosts(), scan.ports());
    let res = scan.results();
    let ri = scan.res_idx@;
    scan.active@.lemma_len0_is_empty();
    assert forall|k: int| 0 <= k < prod.len() implies exists|i: int| 0 <= i < res.len() && #[trigger] res[i].target == #[trigger] prod[k] by {
        assert(ri.contains(k) || exists|s: int| #[trigger] scan.active@.contains(s) && scan.slot_idx@[s] == k);
        let i = choose|i: int| 0 <= i < ri.len() && ri[i] == k;
        assert(res[i].target == prod[k]);
    }
    assert forall|i: int| 0 <= i < res.len() implies prod.contains(#[trigger] res[i].target) by {
        assert(0 <= ri[i] < prod.len());
        assert(prod[ri[i]] == res[i].target);
    }
    if scan.hosts().no_duplicates() && scan.ports().no_duplicates() {
        lemma_product_distinct(scan.hosts(), scan.ports());
        assert forall|i: int, j: int| 0 <= i < res.len() && 0 <= j < res.len() && i != j
            implies #[trigger] res[i].target != #[trigger] res[j].target by {
            assert(ri[i] != ri[j]);
            assert(0 <= ri[i] < prod.len());
            assert(0 <= ri[j] < prod.len());
        }
    }
}

/// At no point are more than `batch` probes in flight.
pub proof fn lemma_in_flight_bounded(scan: &TcpScan)
    requires
        scan.wf(),
    ensures
        0 <= scan.in_flight() <= scan.batch(),
{
}

} // verus!
