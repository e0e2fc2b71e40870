//! A cursor over the endpoints `ports × hosts`, ports outermost, that holds
//! two indices and borrows the two sequences.
use vstd::prelude::*;
use crate::hosts::HostAddr;

verus! {

/// One unit of work: an address and a port.
#[derive(Clone, Copy, Debug, PartialEq, Eq, Structural, Hash)]
pub struct Endpoint {
    pub ip: HostAddr,
    pub port: u16,
}

/// Every endpoint of `ports × hosts`: all hosts for the first port, then all
/// hosts for the second, and so on.
pub open spec fn product(hosts: Seq<HostAddr>, ports: Seq<u16>) -> Seq<Endpoint> {
    Seq::new(
        hosts.len() * ports.len(),
        |k: int| Endpoint { ip: hosts[k % hosts.len() as int], port: ports[k / hosts.len() as int] },
    )
}

pub struct SockIter<'a> {
    ips: &'a [HostAddr],
    ports: &'a [u16],
    port_idx: usize,
    ip_idx: usize,
}

impl<'a> SockIter<'a> {
    pub closed spec fn hosts(&self) -> Seq<HostAddr> {
        self.ips@
    }

    pub closed spec fn port_seq(&self) -> Seq<u16> {
        self.ports@
    }

    /// How many endpoints have been handed out.
    pub closed spec fn pos(&self) -> int {
        self.port_idx as int * self.ips@.len() as int + self.ip_idx as int
    }

    pub open spec fn total(&self) -> int {
        self.hosts().len() as int * self.port_seq().len() as int
    }

    pub closed spec fn wf(&self) -> bool {
        &&& self.port_idx <= self.ports@.len()
        &&& (self.ip_idx < self.ips@.len() || self.ip_idx == 0)
        &&& (self.port_idx == self.ports@.len() ==> self.ip_idx == 0)
        &&& (self.ips@.len() == 0 ==> self.port_idx == 0)
    }

    pub proof fn lemma_pos_bounds(&self)
        requires
            self.wf(),
        ensures
            0 <= self.pos() <= self.total(),
    {
        let h = self.ips@.len() as int;
        let p = self.ports@.len() as int;
        let pi = self.port_idx as int;
        let ii = self.ip_idx as int;
        if pi < p {
            assert(pi * h + ii <= h * p) by (nonlinear_arith)
                requires
                    pi < p,
                    ii < h || (ii == 0 && h == 0),
                    0 <= pi,
                    0 <= ii,
            ;
        } else {
            assert(pi * h == h * p) by (nonlinear_arith)
                requires
                    pi == p,
            ;
        }
        assert(0 <= pi * h) by (nonlinear_arith)
            requires
                0 <= pi,
                0 <= h,
        ;
    }

    /// A cursor at the first endpoint of `ports × ips`.
    pub fn new(ips: &'a [HostAddr], ports: &'a [u16]) -> (r: SockIter<'a>)
        ensures
            r.wf(),
            r.hosts() == ips@,
            r.port_seq() == ports@,
            r.pos() == 0,
    {
        SockIter { ips, ports, port_idx: 0, ip_idx: 0 }
    }

    /// Whether every endpoint has been handed out.
    pub fn is_exhausted(&self) -> (r: bool)
        requires
            self.wf(),
        ensures
            r == (self.pos() >= self.total()),
    {
        proof {
            self.lemma_pos_bounds();
            let h = self.ips@.len() as int;
            let p = self.ports@.len() as int;
            if self.port_idx < p && h > 0 {
                let pi = self.port_idx as int;
                let ii = self.ip_idx as int;
                assert((pi + 1) * h <= p * h) by (nonlinear_arith)
                    requires
                        pi < p,
                        h > 0,
                ;
                assert(pi * h + ii < h * p) by (nonlinear_arith)
                    requires
                        0 <= ii < h,
                        (pi + 1) * h <= p * h,
                ;
            }
            if h == 0 {
                assert(h * p == 0);
            }
        }
        self.ips.len() == 0 || self.port_idx >= self.ports.len()
    }

    /// The next endpoint of the product, or `None` once all were handed out.
    pub fn next(&mut self) -> (r: Option<Endpoint>)
        requires
            old(self).wf(),
        ensures
            final(self).wf(),
            final(self).hosts() == old(self).hosts(),
            final(self).port_seq() == old(self).port_seq(),
            old(self).pos() < old(self).total() ==> {
                &&& r == Some(product(old(self).hosts(), old(self).port_seq())[old(self).pos()])
                &&& final(self).pos() == old(self).pos() + 1
            },
            old(self).pos() >= old(self).total() ==> r is None && final(self).pos() == old(self).pos(),
    {
        proof {
            self.lemma_pos_bounds();
        }
        let h = self.ips.len();
        if h == 0 || self.port_idx >= self.ports.len() {
            proof {
                let p = self.ports@.len() as int;
                if h != 0 {
                    assert(self.port_idx * h == h * p) by (nonlinear_arith)
                        requires
                            self.port_idx == p,
                    ;
                }
            }
            return None;
        }
        let e = Endpoint { ip: self.ips[self.ip_idx], port: self.ports[self.port_idx] };
        proof {
            let pi = self.port_idx as int;
            let ii = self.ip_idx as int;
            let hh = h as int;
            let p = self.ports@.len() as int;
            let k = pi * hh + ii;
            vstd::arithmetic::div_mod::lemma_fundamental_div_mod_converse(k, hh, pi, ii);
            assert((pi + 1) * hh <= p * hh) by (nonlinear_arith)
                requires
                    pi < p,
                    hh > 0,
            ;
            assert(k < hh * p) by (nonlinear_arith)
                requires
                    pi < p,
                    0 <= ii < hh,
                    0 <= pi,
                    (pi + 1) * hh <= p * hh,
                    k == pi * hh + ii,
            ;
        }
        if self.ip_idx + 1 == h {
            let ghost pi = self.port_idx as int;
            let ghost hh = h as int;
            assert((pi + 1) * hh == pi * hh + (hh - 1) + 1) by (nonlinear_arith);
            self.ip_idx = 0;
            self.port_idx = self.port_idx + 1;
        } else {
            self.ip_idx = self.ip_idx + 1;
        }
        Some(e)
    }
}

} // verus!
