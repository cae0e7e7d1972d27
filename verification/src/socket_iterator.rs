//! A streaming enumerator of the (ports x IPs) cross product. The outer
//! loop is the ports and the inner loop is the IPs, so that within any
//! window of `|ips|` consecutive emissions every host is probed exactly
//! once on the same port before any host sees the next port.

use vstd::prelude::*;
use crate::ip::Ip;

verus! {

/// A socket address: an IP and a port.
#[derive(Debug, Clone, Copy, PartialEq, Eq, Structural)]
pub struct Socket {
    pub ip: Ip,
    pub port: u16,
}

/// The whole cross product in emission order: element `k` pairs port
/// number `k / |ips|` with IP number `k % |ips|`.
pub open spec fn cross_product(ports: Seq<u16>, ips: Seq<Ip>) -> Seq<Socket> {
    Seq::new(
        ports.len() * ips.len(),
        |k: int| Socket { ip: ips[k % ips.len() as int], port: ports[k / ips.len() as int] },
    )
}

/// The streaming enumerator. Memory use is one copy of the two input
/// lists; the product itself is never materialized.
pub struct SocketIterator {
    ips: Vec<Ip>,
    ports: Vec<u16>,
    port_idx: usize,
    ip_idx: usize,
}

impl SocketIterator {
    /// The IP list.
    pub closed spec fn spec_ips(&self) -> Seq<Ip> {
        self.ips@
    }

    /// The port list.
    pub closed spec fn spec_ports(&self) -> Seq<u16> {
        self.ports@
    }

    /// How many sockets have been emitted so far.
    pub closed spec fn spec_emitted(&self) -> nat {
        (self.port_idx * self.ips@.len() + self.ip_idx) as nat
    }

    /// The whole sequence this enumerator walks.
    pub open spec fn spec_sockets(&self) -> Seq<Socket> {
        cross_product(self.spec_ports(), self.spec_ips())
    }

    /// The position counters stand inside the product.
    pub closed spec fn wf(&self) -> bool {
        &&& self.ip_idx <= self.ips@.len()
        &&& self.port_idx <= self.ports@.len()
        &&& (self.ip_idx < self.ips@.len() || (self.ip_idx == 0 && self.ips@.len() == 0))
        &&& (self.port_idx == self.ports@.len() ==> self.ip_idx == 0)
        &&& self.ips@.len() * self.ports@.len() <= usize::MAX
    }

    /// Start the product at the first port of the first IP.
    pub fn new(ips: &Vec<Ip>, ports: &Vec<u16>) -> (r: Self)
        requires
            ips@.len() * ports@.len() <= usize::MAX,
        ensures
            r.wf(),
            r.spec_ips() == ips@,
            r.spec_ports() == ports@,
            r.spec_emitted() == 0,
    {
        let r = Self { ips: ips.clone(), ports: ports.clone(), port_idx: 0, ip_idx: 0 };
        proof {
            assert(r.ips@ =~= ips@);
            assert(r.ports@ =~= ports@);
        }
        r
    }

    /// The count handed out never exceeds the size of the product.
    pub proof fn lemma_emitted_bound(&self)
        requires
            self.wf(),
        ensures
            self.spec_emitted() <= self.spec_sockets().len(),
    {
        if self.port_idx < self.ports@.len() {
            assert(self.port_idx * self.ips@.len() + self.ip_idx <= self.ports@.len()
                * self.ips@.len()) by (nonlinear_arith)
                requires
                    self.port_idx < self.ports@.len(),
                    self.ip_idx <= self.ips@.len(),
                    self.ips@.len() >= 0,
            ;
        } else {
            assert(self.port_idx * self.ips@.len() + self.ip_idx <= self.ports@.len()
                * self.ips@.len()) by (nonlinear_arith)
                requires
                    self.port_idx == self.ports@.len(),
                    self.ip_idx == 0,
            ;
        }
    }

    /// The next socket of the product, every IP on one port before the
    /// next port, or nothing once the product is exhausted.
    pub fn next(&mut self) -> (r: Option<Socket>)
        requires
            old(self).wf(),
        ensures
            final(self).wf(),
            final(self).spec_ips() == old(self).spec_ips(),
            final(self).spec_ports() == old(self).spec_ports(),
            old(self).spec_emitted() < old(self).spec_sockets().len() ==> r is Some
                && r->Some_0 == old(self).spec_sockets()[old(self).spec_emitted() as int]
                && final(self).spec_emitted() == old(self).spec_emitted() + 1,
            old(self).spec_emitted() >= old(self).spec_sockets().len() ==> r is None
                && final(self).spec_emitted() == old(self).spec_emitted(),
    {
        let ni = self.ips.len();
        let np = self.ports.len();
        if self.port_idx >= np || ni == 0 {
            proof {
                if ni == 0 {
                    assert(self.spec_sockets().len() == 0) by {
                        assert(self.ports@.len() * 0 == 0) by (nonlinear_arith);
                    }
                } else {
                    assert(self.spec_emitted() >= self.spec_sockets().len()) by {
                        assert(self.port_idx * self.ips@.len() >= self.ports@.len()
                            * self.ips@.len()) by (nonlinear_arith)
                            requires
                                self.port_idx >= self.ports@.len(),
                                self.ips@.len() >= 0,
                        ;
                    }
                }
            }
            return None;
        }
        proof {
            assert(self.port_idx * self.ips@.len() + self.ip_idx < self.ports@.len()
                * self.ips@.len()) by (nonlinear_arith)
                requires
                    self.port_idx < self.ports@.len(),
                    self.ip_idx < self.ips@.len(),
                    self.ips@.len() > 0,
            ;
            let k = self.port_idx * self.ips@.len() + self.ip_idx;
            vstd::arithmetic::div_mod::lemma_fundamental_div_mod_converse(
                k as int,
                self.ips@.len() as int,
                self.port_idx as int,
                self.ip_idx as int,
            );
        }
        let s = Socket { ip: self.ips[self.ip_idx], port: self.ports[self.port_idx] };
        self.ip_idx = self.ip_idx + 1;
        if self.ip_idx == ni {
            self.ip_idx = 0;
            self.port_idx = self.port_idx + 1;
            proof {
                assert((self.port_idx) * self.ips@.len() == (self.port_idx - 1)
                    * self.ips@.len() + self.ips@.len()) by (nonlinear_arith);
                assert(self.port_idx * self.ips@.len() <= self.ports@.len() * self.ips@.len())
                    by (nonlinear_arith)
                    requires
                        self.port_idx <= self.ports@.len(),
                        self.ips@.len() >= 0,
                ;
            }
        }
        Some(s)
    }
}

/// Fairness of the emission order: while the first port lasts, emission
/// `k` probes IP `k` on that port, so the first `|ips|` emissions touch
/// every IP exactly once.
pub proof fn lemma_first_window_fair(ports: Seq<u16>, ips: Seq<Ip>, k: int)
    requires
        ports.len() >= 1,
        0 <= k < ips.len(),
    ensures
        cross_product(ports, ips)[k] == (Socket { ip: ips[k], port: ports[0] }),
{
    assert(ips.len() >= 1);
    assert(1 * ips.len() <= ports.len() * ips.len()) by (nonlinear_arith)
        requires
            ports.len() >= 1,
            ips.len() >= 0,
    ;
    vstd::arithmetic::div_mod::lemma_fundamental_div_mod_converse(
        k,
        ips.len() as int,
        0,
        k,
    );
}

/// Every socket of the product takes its IP from the IP list and its
/// port from the port list.
pub proof fn lemma_cross_product_sources(ports: Seq<u16>, ips: Seq<Ip>, k: int)
    requires
        0 <= k < cross_product(ports, ips).len(),
    ensures
        ips.contains(cross_product(ports, ips)[k].ip),
        ports.contains(cross_product(ports, ips)[k].port),
{
    let n = ips.len() as int;
    assert(n > 0) by {
        if n == 0 {
            assert(ports.len() * 0 == 0) by (nonlinear_arith);
        }
    }
    vstd::arithmetic::div_mod::lemma_mod_division_less_than_divisor(k, n);
    assert(0 <= k % n < n);
    assert(0 <= k / n < ports.len() as int) by {
        vstd::arithmetic::div_mod::lemma_div_pos_is_pos(k, n);
        if k / n >= ports.len() as int {
            assert(k >= n * (k / n)) by {
                vstd::arithmetic::div_mod::lemma_fundamental_div_mod(k, n);
                vstd::arithmetic::div_mod::lemma_mod_division_less_than_divisor(k, n);
            }
            assert(n * (k / n) >= n * (ports.len() as int)) by (nonlinear_arith)
                requires
                    k / n >= ports.len() as int,
                    n > 0,
            ;
            assert(ports.len() * ips.len() == n * (ports.len() as int)) by (nonlinear_arith)
                requires
                    n == ips.len() as int,
            ;
            assert(false);
        }
    }
    assert(ips[k % n] == cross_product(ports, ips)[k].ip);
    assert(ports[k / n] == cross_product(ports, ips)[k].port);
}

} // verus!
