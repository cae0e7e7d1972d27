//! The probe engine: the scan plan, the bounded-concurrency pool that
//! keeps at most `batch_size` probes in flight, the per-attempt retry
//! decisions for TCP and UDP probes, and the UDP payload table.
//!
//! The pool is a state machine: the caller launches the sockets this
//! module hands out, performs the network probe for each, and feeds every
//! completion back in; the module decides what to launch next and records
//! the results. The network itself stays outside.

use vstd::prelude::*;
use crate::address::spec_dedup_exclude;
use crate::address::lemma_dedup_exclude_no_excluded;
use crate::ip::Cidr;
use crate::ip::Ip;
use crate::ip::in_any_cidr;
use crate::socket_iterator::lemma_cross_product_sources;
use crate::port_strategy::PortStrategy;
use crate::port_strategy::serial_seq;
use crate::socket_iterator::Socket;
use crate::socket_iterator::SocketIterator;
use crate::socket_iterator::cross_product;
use crate::textnum::chars_of;
use crate::textnum::contains_seq;
use crate::textnum::spec_contains_seq;

verus! {

/// The ports of `ports` that are not excluded, in order.
pub open spec fn spec_exclude_ports(ports: Seq<u16>, ex: Seq<u16>) -> Seq<u16>
    decreases ports.len(),
{
    if ports.len() == 0 {
        Seq::empty()
    } else {
        let rest = spec_exclude_ports(ports.drop_last(), ex);
        if ex.contains(ports.last()) {
            rest
        } else {
            rest.push(ports.last())
        }
    }
}

/// Every port of the filtered sequence comes from the input and is not
/// excluded.
pub proof fn lemma_exclude_ports_sound(ports: Seq<u16>, ex: Seq<u16>)
    ensures
        forall|i: int|
            0 <= i < spec_exclude_ports(ports, ex).len() ==> ports.contains(
                spec_exclude_ports(ports, ex)[i],
            ) && !ex.contains(spec_exclude_ports(ports, ex)[i]),
    decreases ports.len(),
{
    if ports.len() > 0 {
        lemma_exclude_ports_sound(ports.drop_last(), ex);
        let rest = spec_exclude_ports(ports.drop_last(), ex);
        let whole = spec_exclude_ports(ports, ex);
        assert forall|i: int|
            0 <= i < whole.len() implies ports.contains(whole[i]) && !ex.contains(whole[i]) by {
            if ex.contains(ports.last()) || i < whole.len() - 1 {
                assert(whole[i] == rest[i]);
                assert(ports.drop_last().contains(rest[i]));
                let w = choose|w: int|
                    0 <= w < ports.drop_last().len() && ports.drop_last()[w] == rest[i];
                assert(ports[w] == rest[i]);
            } else {
                assert(whole[i] == ports.last());
                assert(ports[ports.len() - 1] == ports.last());
            }
        }
    }
}

/// A port is in the filtered sequence exactly when it is in the input
/// and not excluded.
pub proof fn lemma_exclude_ports_membership(ports: Seq<u16>, ex: Seq<u16>, p: u16)
    ensures
        spec_exclude_ports(ports, ex).contains(p) <==> (ports.contains(p) && !ex.contains(p)),
    decreases ports.len(),
{
    if ports.len() > 0 {
        lemma_exclude_ports_membership(ports.drop_last(), ex, p);
        let rest = spec_exclude_ports(ports.drop_last(), ex);
        if ex.contains(ports.last()) {
            crate::address::lemma_contains_split(ports, p);
        } else {
            crate::address::lemma_contains_split(rest.push(ports.last()), p);
            assert(rest.push(ports.last()).drop_last() =~= rest);
            crate::address::lemma_contains_split(ports, p);
        }
    }
}

/// Filtering a duplicate-free port sequence leaves it duplicate-free.
pub proof fn lemma_exclude_ports_distinct(ports: Seq<u16>, ex: Seq<u16>)
    requires
        forall|i: int, j: int| 0 <= i < j < ports.len() ==> ports[i] != ports[j],
    ensures
        forall|i: int, j: int|
            0 <= i < j < spec_exclude_ports(ports, ex).len() ==> spec_exclude_ports(ports, ex)[i]
                != spec_exclude_ports(ports, ex)[j],
    decreases ports.len(),
{
    if ports.len() > 0 {
        assert(forall|i: int, j: int|
            0 <= i < j < ports.drop_last().len() ==> ports.drop_last()[i]
                != ports.drop_last()[j]);
        lemma_exclude_ports_distinct(ports.drop_last(), ex);
        let rest = spec_exclude_ports(ports.drop_last(), ex);
        let whole = spec_exclude_ports(ports, ex);
        if !ex.contains(ports.last()) {
            assert forall|i: int, j: int| 0 <= i < j < whole.len() implies whole[i]
                != whole[j] by {
                if j == whole.len() - 1 {
                    if whole[i] == ports.last() {
                        assert(rest.contains(ports.last()));
                        lemma_exclude_ports_membership(ports.drop_last(), ex, ports.last());
                        let w = choose|w: int|
                            0 <= w < ports.drop_last().len() && ports.drop_last()[w]
                                == ports.last();
                        assert(ports[w] == ports[ports.len() - 1]);
                        assert(false);
                    }
                } else {
                    assert(whole[i] == rest[i] && whole[j] == rest[j]);
                }
            }
        }
    }
}

/// Remove the excluded ports, keeping order and multiplicity.
pub fn exclude_filter(ports: &Vec<u16>, exclude_ports: &Vec<u16>) -> (r: Vec<u16>)
    ensures
        r@ == spec_exclude_ports(ports@, exclude_ports@),
{
    let mut out: Vec<u16> = Vec::new();
    let n = ports.len();
    let mut i: usize = 0;
    while i < n
        invariant
            0 <= i <= n,
            n == ports@.len(),
            out@ == spec_exclude_ports(ports@.take(i as int), exclude_ports@),
        decreases n - i,
    {
        proof {
            assert(ports@.take(i + 1).drop_last() =~= ports@.take(i as int));
            assert(ports@.take(i + 1).last() == ports@[i as int]);
        }
        let p = ports[i];
        let mut hit = false;
        let m = exclude_ports.len();
        let mut j: usize = 0;
        while j < m
            invariant
                0 <= j <= m,
                m == exclude_ports@.len(),
                hit <==> exists|t: int| 0 <= t < j && exclude_ports@[t] == p,
            decreases m - j,
        {
            if exclude_ports[j] == p {
                hit = true;
            }
            j = j + 1;
        }
        proof {
            assert(hit <==> exclude_ports@.contains(p));
        }
        if !hit {
            out.push(p);
        }
        i = i + 1;
    }
    proof {
        assert(ports@.take(n as int) =~= ports@);
    }
    out
}

/// Exclusion of the whole plan: when the targets are the working set
/// left by deduplication and exclusion, and the ports are the order
/// with the excluded ports removed, then no socket of the scan's cross
/// product has its address inside any exclusion block or its port in
/// the excluded ports.
pub proof fn lemma_scan_plan_exclusion(
    raw_ips: Seq<Ip>,
    excluded: Seq<Cidr>,
    raw_ports: Seq<u16>,
    exclude_ports: Seq<u16>,
    k: int,
)
    requires
        0 <= k < cross_product(
            spec_exclude_ports(raw_ports, exclude_ports),
            spec_dedup_exclude(raw_ips, excluded),
        ).len(),
    ensures
        !in_any_cidr(
            cross_product(
                spec_exclude_ports(raw_ports, exclude_ports),
                spec_dedup_exclude(raw_ips, excluded),
            )[k].ip,
            excluded,
        ),
        !exclude_ports.contains(
            cross_product(
                spec_exclude_ports(raw_ports, exclude_ports),
                spec_dedup_exclude(raw_ips, excluded),
            )[k].port,
        ),
{
    let ports = spec_exclude_ports(raw_ports, exclude_ports);
    let ips = spec_dedup_exclude(raw_ips, excluded);
    lemma_cross_product_sources(ports, ips, k);
    let sock = cross_product(ports, ips)[k];
    lemma_dedup_exclude_no_excluded(raw_ips, excluded);
    let i = choose|i: int| 0 <= i < ips.len() && ips[i] == sock.ip;
    assert(!in_any_cidr(ips[i], excluded));
    lemma_exclude_ports_sound(raw_ports, exclude_ports);
    let j = choose|j: int| 0 <= j < ports.len() && ports[j] == sock.port;
    assert(!exclude_ports.contains(ports[j]));
}

/// One payload of the UDP payload table: the ports it applies to, and
/// the bytes to send.
#[derive(Debug, Clone)]
pub struct UdpPayloadEntry {
    pub ports: Vec<u16>,
    pub payload: Vec<u8>,
}

/// The UDP payload table: a compiled-in mapping from port sets to
/// payloads, opaque to the engine.
#[derive(Debug, Clone)]
pub struct UdpPayloadTable {
    pub entries: Vec<UdpPayloadEntry>,
}

/// The payload for a port: that of the last table entry whose port set
/// holds the port, or the empty payload.
pub open spec fn spec_udp_payload(t: Seq<UdpPayloadEntry>, port: u16) -> Seq<u8>
    decreases t.len(),
{
    if t.len() == 0 {
        Seq::empty()
    } else if t.last().ports@.contains(port) {
        t.last().payload@
    } else {
        spec_udp_payload(t.drop_last(), port)
    }
}

/// Choose the payload to send to a port.
pub fn udp_payload_for(table: &UdpPayloadTable, port: u16) -> (r: Vec<u8>)
    ensures
        r@ == spec_udp_payload(table.entries@, port),
{
    let n = table.entries.len();
    proof {
        assert(table.entries@.take(n as int) =~= table.entries@);
    }
    let mut i: usize = n;
    while i > 0
        invariant
            0 <= i <= n,
            n == table.entries@.len(),
            spec_udp_payload(table.entries@, port) == spec_udp_payload(
                table.entries@.take(i as int),
                port,
            ),
        decreases i,
    {
        proof {
            assert(table.entries@.take(i as int).drop_last() =~= table.entries@.take(i - 1));
            assert(table.entries@.take(i as int).last() == table.entries@[i - 1]);
        }
        let entry = &table.entries[i - 1];
        let m = entry.ports.len();
        let mut j: usize = 0;
        let mut hit = false;
        while j < m
            invariant
                0 < i <= n,
                n == table.entries@.len(),
                0 <= j <= m,
                m == entry.ports@.len(),
                *entry == table.entries@[i - 1],
                hit <==> exists|t: int| 0 <= t < j && entry.ports@[t] == port,
            decreases m - j,
        {
            if entry.ports[j] == port {
                hit = true;
            }
            j = j + 1;
        }
        proof {
            assert(hit <==> table.entries@[i - 1].ports@.contains(port));
        }
        if hit {
            return entry.payload.clone();
        }
        i = i - 1;
    }
    proof {
        assert(table.entries@.take(0) =~= Seq::<UdpPayloadEntry>::empty());
    }
    Vec::new()
}

/// What the string-case-folding of the standard library returns; the
/// result depends on the characters alone.
pub uninterp spec fn lower_of(s: Seq<char>) -> Seq<char>;

/// Relies on str::to_lowercase: the lowercase form of the string, a
/// function of its characters alone.
#[verifier::external_body]
fn to_lowercase_str(s: &str) -> (r: String)
    ensures
        r@ == lower_of(s@),
{
    s.to_lowercase()
}

/// The text that marks a descriptor-exhaustion failure.
pub open spec fn fd_exhaustion_marker() -> Seq<char> {
    "too many open files"@
}

/// Whether an error message reports descriptor exhaustion: its lowercase
/// form mentions running out of open files.
pub fn is_fd_exhaustion(error_text: &str) -> (r: bool)
    ensures
        r == spec_contains_seq(lower_of(error_text@), fd_exhaustion_marker()),
{
    let low = to_lowercase_str(error_text);
    let hay = chars_of(low.as_str());
    let needle = chars_of("too many open files");
    contains_seq(&hay, &needle)
}

/// The decision after one TCP connect attempt.
#[derive(Debug, PartialEq, Eq)]
pub enum ProbeVerdict {
    /// The connect succeeded: the socket is open, stop probing it.
    Open,
    /// The attempt failed and attempts remain: probe the socket again.
    Retry,
    /// Descriptor exhaustion: the whole scan must abort.
    Fatal,
    /// The last attempt failed: report this error and stop.
    Failed(String),
}

/// Decide what one TCP connect attempt means. A successful connect is an
/// open socket. Descriptor exhaustion aborts the scan. Any other failure
/// is retried while attempts remain; the last failure is reported with
/// the target address appended.
pub fn tcp_attempt_verdict(
    connect_error: &Option<String>,
    nr_try: u8,
    tries: u8,
    ip_text: &str,
) -> (r: ProbeVerdict)
    requires
        1 <= nr_try <= tries,
    ensures
        connect_error is None ==> r == ProbeVerdict::Open,
        connect_error is Some && spec_contains_seq(
            lower_of(connect_error->Some_0@),
            fd_exhaustion_marker(),
        ) ==> r == ProbeVerdict::Fatal,
        connect_error is Some && !spec_contains_seq(
            lower_of(connect_error->Some_0@),
            fd_exhaustion_marker(),
        ) && nr_try < tries ==> r == ProbeVerdict::Retry,
        connect_error is Some && !spec_contains_seq(
            lower_of(connect_error->Some_0@),
            fd_exhaustion_marker(),
        ) && nr_try == tries ==> (r matches ProbeVerdict::Failed(msg) && msg@
            == connect_error->Some_0@ + " "@ + ip_text@),
{
    match connect_error {
        None => ProbeVerdict::Open,
        Some(e) => {
            if is_fd_exhaustion(e.as_str()) {
                ProbeVerdict::Fatal
            } else if nr_try < tries {
                ProbeVerdict::Retry
            } else {
                let mut msg = e.clone();
                msg.append(" ");
                msg.append(ip_text);
                ProbeVerdict::Failed(msg)
            }
        },
    }
}

/// What one UDP attempt produced, as seen by the probe.
#[derive(Debug, PartialEq, Eq)]
pub enum UdpAttemptOutcome {
    /// A datagram came back within the timeout.
    Reply,
    /// The timeout passed in silence.
    TimedOut,
    /// Some other input or output error.
    Failed(String),
}

/// The decision after one UDP attempt.
#[derive(Debug, PartialEq, Eq)]
pub enum UdpVerdict {
    /// Any reply marks the port open.
    Open,
    /// Silence, with attempts remaining: send again.
    Retry,
    /// Silence on the last attempt: a normal negative result.
    AllTimedOut,
    /// Another error is reported at once, without retrying.
    Failed(String),
}

/// Decide what one UDP attempt means: any reply is an open port, silence
/// is retried until the attempts run out, and any other error is
/// reported at once.
pub fn udp_attempt_verdict(outcome: UdpAttemptOutcome, nr_try: u8, tries: u8) -> (r: UdpVerdict)
    requires
        1 <= nr_try <= tries,
    ensures
        outcome == UdpAttemptOutcome::Reply ==> r == UdpVerdict::Open,
        outcome == UdpAttemptOutcome::TimedOut && nr_try < tries ==> r == UdpVerdict::Retry,
        outcome == UdpAttemptOutcome::TimedOut && nr_try == tries ==> r
            == UdpVerdict::AllTimedOut,
        outcome matches UdpAttemptOutcome::Failed(e) ==> (r matches UdpVerdict::Failed(msg)
            && msg == e),
    {
    match outcome {
        UdpAttemptOutcome::Reply => UdpVerdict::Open,
        UdpAttemptOutcome::TimedOut => {
            if nr_try < tries {
                UdpVerdict::Retry
            } else {
                UdpVerdict::AllTimedOut
            }
        },
        UdpAttemptOutcome::Failed(e) => UdpVerdict::Failed(e),
    }
}

/// The message reported when every UDP attempt at a socket timed out.
pub fn udp_timeout_message(socket_text: &str) -> (r: String)
    ensures
        r@ == "UDP scan timed-out for all tries on socket "@ + socket_text@,
{
    let mut msg = String::new();
    msg.append("UDP scan timed-out for all tries on socket ");
    msg.append(socket_text);
    msg
}

/// Whether a vector of strings holds one with these characters.
fn contains_string(v: &Vec<String>, s: &String) -> (r: bool)
    ensures
        r == (exists|i: int| 0 <= i < v@.len() && v@[i]@ == s@),
{
    let n = v.len();
    let mut i: usize = 0;
    while i < n
        invariant
            0 <= i <= n,
            n == v@.len(),
            forall|j: int| 0 <= j < i ==> v@[j]@ != s@,
        decreases n - i,
    {
        if v[i].eq(s) {
            return true;
        }
        i = i + 1;
    }
    false
}

/// What the pool answers when a completion is fed back.
pub enum PoolReply {
    /// Launch this socket as the replacement probe.
    Spawn(Socket),
    /// The iterator is drained; await the remaining probes.
    Drain,
}

/// The bounded-concurrency pool. It never hands out more sockets than
/// `batch_size` before they complete, collects open sockets, and keeps a
/// deduplicated, size-capped set of error messages.
pub struct ScanPool {
    iter: SocketIterator,
    batch_size: usize,
    in_flight: usize,
    open_sockets: Vec<Socket>,
    errors: Vec<String>,
    error_cap: usize,
}

impl ScanPool {
    /// The concurrency bound.
    pub closed spec fn spec_batch_size(&self) -> nat {
        self.batch_size as nat
    }

    /// How many probes the caller currently has in flight.
    pub closed spec fn spec_in_flight(&self) -> nat {
        self.in_flight as nat
    }

    /// The sockets of this scan, in emission order.
    pub closed spec fn spec_sockets(&self) -> Seq<Socket> {
        self.iter.spec_sockets()
    }

    /// How many sockets have been handed out.
    pub closed spec fn spec_handed_out(&self) -> nat {
        self.iter.spec_emitted()
    }

    /// The open sockets collected so far.
    pub closed spec fn spec_open_sockets(&self) -> Seq<Socket> {
        self.open_sockets@
    }

    /// The error messages collected so far.
    pub closed spec fn spec_errors(&self) -> Seq<String> {
        self.errors@
    }

    /// The cap on the error set.
    pub closed spec fn spec_error_cap(&self) -> nat {
        self.error_cap as nat
    }

    /// The concurrency bound holds, and the counters are consistent.
    pub closed spec fn wf(&self) -> bool {
        &&& self.iter.wf()
        &&& self.in_flight <= self.batch_size
        &&& self.in_flight <= self.iter.spec_emitted()
        &&& self.errors@.len() <= self.error_cap
    }

    /// A fresh pool over the (ports x IPs) product, with nothing in
    /// flight yet.
    pub fn new(ips: &Vec<Ip>, ports: &Vec<u16>, batch_size: usize, error_cap: usize) -> (r:
        Self)
        requires
            ips@.len() * ports@.len() <= usize::MAX,
        ensures
            r.wf(),
            r.spec_batch_size() == batch_size,
            r.spec_in_flight() == 0,
            r.spec_handed_out() == 0,
            r.spec_sockets() == cross_product(ports@, ips@),
            r.spec_open_sockets() == Seq::<Socket>::empty(),
            r.spec_errors() == Seq::<String>::empty(),
            r.spec_error_cap() == error_cap,
    {
        let iter = SocketIterator::new(ips, ports);
        ScanPool {
            iter,
            batch_size,
            in_flight: 0,
            open_sockets: Vec::new(),
            errors: Vec::new(),
            error_cap,
        }
    }

    /// Hand out the initial batch: up to `batch_size` sockets, in
    /// emission order. Afterwards exactly that many probes are in
    /// flight — never more than the concurrency bound.
    pub fn seed(&mut self) -> (batch: Vec<Socket>)
        requires
            old(self).wf(),
            old(self).spec_in_flight() == 0,
            old(self).spec_handed_out() == 0,
        ensures
            final(self).wf(),
            final(self).spec_batch_size() == old(self).spec_batch_size(),
            final(self).spec_sockets() == old(self).spec_sockets(),
            final(self).spec_error_cap() == old(self).spec_error_cap(),
            final(self).spec_open_sockets() == old(self).spec_open_sockets(),
            final(self).spec_errors() == old(self).spec_errors(),
            batch@.len() == (if old(self).spec_sockets().len() < old(self).spec_batch_size() {
                old(self).spec_sockets().len()
            } else {
                old(self).spec_batch_size()
            }),
            batch@ == old(self).spec_sockets().take(batch@.len() as int),
            final(self).spec_in_flight() == batch@.len(),
            final(self).spec_in_flight() <= final(self).spec_batch_size(),
            final(self).spec_handed_out() == batch@.len(),
    {
        let mut batch: Vec<Socket> = Vec::new();
        let mut i: usize = 0;
        while i < self.batch_size
            invariant
                0 <= i <= self.batch_size,
                self.iter.wf(),
                self.iter.spec_sockets() == old(self).spec_sockets(),
                self.batch_size == old(self).spec_batch_size(),
                self.error_cap == old(self).error_cap,
                self.open_sockets == old(self).open_sockets,
                self.errors == old(self).errors,
                self.in_flight == 0,
                batch@.len() == self.iter.spec_emitted(),
                batch@.len() <= i,
                self.iter.spec_emitted() <= self.iter.spec_sockets().len(),
                batch@ == self.iter.spec_sockets().take(batch@.len() as int),
                batch@.len() < i ==> batch@.len() == self.iter.spec_sockets().len(),
            decreases self.batch_size - i,
        {
            proof {
                self.iter.lemma_emitted_bound();
            }
            match self.iter.next() {
                Some(s) => {
                    proof {
                        assert(self.iter.spec_sockets().take(batch@.len() as int + 1) =~= self
                            .iter
                            .spec_sockets()
                            .take(batch@.len() as int)
                            .push(s));
                    }
                    batch.push(s);
                },
                None => {
                },
            }
            proof {
                self.iter.lemma_emitted_bound();
            }
            i = i + 1;
        }
        self.in_flight = batch.len();
        batch
    }

    /// Record one completion and refill the slot it frees: an open
    /// socket is collected, an error joins the capped, deduplicated
    /// error set, and the next socket (if any is left) is handed out.
    /// The count in flight never exceeds the concurrency bound.
    pub fn on_completion(&mut self, completion: Result<Socket, String>) -> (reply: PoolReply)
        requires
            old(self).wf(),
            old(self).spec_in_flight() > 0,
        ensures
            final(self).wf(),
            final(self).spec_batch_size() == old(self).spec_batch_size(),
            final(self).spec_sockets() == old(self).spec_sockets(),
            final(self).spec_error_cap() == old(self).spec_error_cap(),
            final(self).spec_in_flight() <= final(self).spec_batch_size(),
            completion matches Ok(s) ==> final(self).spec_open_sockets() == old(
                self,
            ).spec_open_sockets().push(s) && final(self).spec_errors() == old(
                self,
            ).spec_errors(),
            completion matches Err(e) ==> final(self).spec_open_sockets() == old(
                self,
            ).spec_open_sockets() && final(self).spec_errors() == (if old(
                self,
            ).spec_errors().len() < old(self).spec_error_cap() && !(exists|i: int|
                0 <= i < old(self).spec_errors().len() && old(self).spec_errors()[i]@ == e@) {
                old(self).spec_errors().push(e)
            } else {
                old(self).spec_errors()
            }),
            old(self).spec_handed_out() < old(self).spec_sockets().len() ==> (reply matches
                PoolReply::Spawn(s) && s == old(self).spec_sockets()[old(
                self,
            ).spec_handed_out() as int] && final(self).spec_handed_out() == old(
                self,
            ).spec_handed_out() + 1 && final(self).spec_in_flight() == old(
                self,
            ).spec_in_flight()),
            old(self).spec_handed_out() >= old(self).spec_sockets().len() ==> (reply matches
                PoolReply::Drain && final(self).spec_handed_out() == old(
                self,
            ).spec_handed_out() && final(self).spec_in_flight() == old(self).spec_in_flight()
                - 1),
    {
        self.in_flight = self.in_flight - 1;
        match completion {
            Ok(s) => {
                self.open_sockets.push(s);
            },
            Err(e) => {
                if self.errors.len() < self.error_cap && !contains_string(&self.errors, &e) {
                    self.errors.push(e);
                }
            },
        }
        match self.iter.next() {
            Some(s) => {
                self.in_flight = self.in_flight + 1;
                PoolReply::Spawn(s)
            },
            None => PoolReply::Drain,
        }
    }

    /// The collected results: the open sockets in completion order, and
    /// the error set.
    pub fn results(self) -> (r: (Vec<Socket>, Vec<String>))
        ensures
            r.0@ == self.spec_open_sockets(),
            r.1@ == self.spec_errors(),
    {
        (self.open_sockets, self.errors)
    }
}

/// The scan plan: targets, concurrency bound, per-attempt timeout in
/// milliseconds, attempt count, output flags, the port strategy, the
/// excluded ports, and the probe mode.
#[derive(Debug)]
pub struct Scanner {
    ips: Vec<Ip>,
    batch_size: usize,
    timeout_millis: u64,
    tries: u8,
    greppable: bool,
    port_strategy: PortStrategy,
    accessible: bool,
    exclude_ports: Vec<u16>,
    udp: bool,
}

impl Scanner {
    /// The target addresses.
    pub closed spec fn spec_ips(&self) -> Seq<Ip> {
        self.ips@
    }

    /// The concurrency bound.
    pub closed spec fn spec_batch_size(&self) -> nat {
        self.batch_size as nat
    }

    /// The per-attempt timeout in milliseconds.
    pub closed spec fn spec_timeout_millis(&self) -> nat {
        self.timeout_millis as nat
    }

    /// The attempt count, always at least one.
    pub closed spec fn spec_tries(&self) -> nat {
        self.tries as nat
    }

    /// Whether only the final greppable line is printed.
    pub closed spec fn spec_greppable(&self) -> bool {
        self.greppable
    }

    /// Whether output avoids decoration.
    pub closed spec fn spec_accessible(&self) -> bool {
        self.accessible
    }

    /// The ports excluded from the scan.
    pub closed spec fn spec_exclude_ports_list(&self) -> Seq<u16> {
        self.exclude_ports@
    }

    /// Whether this is a UDP scan.
    pub closed spec fn spec_udp(&self) -> bool {
        self.udp
    }

    /// The port strategy of the plan.
    pub closed spec fn spec_port_strategy(&self) -> &PortStrategy {
        &self.port_strategy
    }

    /// Build the plan. An attempt count of zero is corrected to one.
    pub fn new(
        ips: &Vec<Ip>,
        batch_size: usize,
        timeout_millis: u64,
        tries: u8,
        greppable: bool,
        port_strategy: PortStrategy,
        accessible: bool,
        exclude_ports: Vec<u16>,
        udp: bool,
    ) -> (r: Self)
        ensures
            r.spec_ips() == ips@,
            r.spec_batch_size() == batch_size,
            r.spec_timeout_millis() == timeout_millis,
            r.spec_tries() == (if tries >= 1 {
                tries as nat
            } else {
                1nat
            }),
            r.spec_tries() >= 1,
            r.spec_greppable() == greppable,
            r.spec_accessible() == accessible,
            r.spec_exclude_ports_list() == exclude_ports@,
            r.spec_udp() == udp,
            *r.spec_port_strategy() == port_strategy,
    {
        let t = if tries >= 1 {
            tries
        } else {
            1
        };
        let r = Scanner {
            ips: ips.clone(),
            batch_size,
            timeout_millis,
            tries: t,
            greppable,
            port_strategy,
            accessible,
            exclude_ports,
            udp,
        };
        proof {
            assert(r.ips@ =~= ips@);
        }
        r
    }

    /// The concurrency bound, for the probe driver.
    pub fn batch_size(&self) -> (r: usize)
        ensures
            r == self.spec_batch_size(),
    {
        self.batch_size
    }

    /// The per-attempt timeout in milliseconds, for the probe driver.
    pub fn timeout_millis(&self) -> (r: u64)
        ensures
            r == self.spec_timeout_millis(),
    {
        self.timeout_millis
    }

    /// The attempt count, for the probe driver.
    pub fn tries(&self) -> (r: u8)
        ensures
            r == self.spec_tries(),
    {
        self.tries
    }

    /// Whether only the final greppable line is printed.
    pub fn greppable(&self) -> (r: bool)
        ensures
            r == self.spec_greppable(),
    {
        self.greppable
    }

    /// Whether output avoids decoration.
    pub fn accessible(&self) -> (r: bool)
        ensures
            r == self.spec_accessible(),
    {
        self.accessible
    }

    /// Whether this is a UDP scan.
    pub fn udp_mode(&self) -> (r: bool)
        ensures
            r == self.spec_udp(),
    {
        self.udp
    }

    /// The target addresses, for the probe driver.
    pub fn ips(&self) -> (r: &Vec<Ip>)
        ensures
            r@ == self.spec_ips(),
    {
        &self.ips
    }

    /// The port order of this scan with the excluded ports removed: the
    /// strategy's order, exactly, minus the excluded ports — what the
    /// pool will pair with the targets.
    pub fn scan_ports(&self) -> (r: Vec<u16>)
        requires
            self.spec_port_strategy().wf(),
        ensures
            forall|i: int|
                0 <= i < r@.len() ==> !self.spec_exclude_ports_list().contains(r@[i]),
            self.spec_port_strategy() matches PortStrategy::Manual(p) ==> r@
                == spec_exclude_ports(p@, self.spec_exclude_ports_list()),
            self.spec_port_strategy() matches PortStrategy::Serial(s) ==> (r@
                == spec_exclude_ports(
                serial_seq(s.spec_start(), s.spec_end()),
                self.spec_exclude_ports_list(),
            )),
            self.spec_port_strategy() matches PortStrategy::Random(rr) ==> {
                &&& (forall|i: int, j: int| 0 <= i < j < r@.len() ==> r@[i] != r@[j])
                &&& (forall|p: u16|
                    r@.contains(p) <==> (rr.spec_start() <= p && p <= rr.spec_end()
                        && !self.spec_exclude_ports_list().contains(p)))
            },
    {
        let ordered = self.port_strategy.order();
        let filtered = exclude_filter(&ordered, &self.exclude_ports);
        proof {
            lemma_exclude_ports_sound(ordered@, self.exclude_ports@);
            match &self.port_strategy {
                PortStrategy::Random(rr) => {
                    assert(forall|i: int, j: int|
                        0 <= i < j < ordered@.len() ==> ordered@[i] != ordered@[j]);
                    lemma_exclude_ports_distinct(ordered@, self.exclude_ports@);
                    assert forall|p: u16|
                        filtered@.contains(p) <==> (rr.spec_start() <= p && p <= rr.spec_end()
                            && !self.spec_exclude_ports_list().contains(p)) by {
                        lemma_exclude_ports_membership(ordered@, self.exclude_ports@, p);
                        if ordered@.contains(p) {
                            let w = choose|w: int| 0 <= w < ordered@.len() && ordered@[w] == p;
                            assert(rr.spec_start() <= ordered@[w] && ordered@[w]
                                <= rr.spec_end());
                        }
                    }
                },
                _ => {},
            }
        }
        filtered
    }

    /// The pool for this plan, over the given scan ports: the error set
    /// is capped at a thousand entries per target. Nothing is returned
    /// when the product or the cap cannot be counted in memory.
    pub fn start_pool(&self, ports: &Vec<u16>) -> (r: Option<ScanPool>)
        ensures
            r is Some <==> (self.spec_ips().len() * 1000 <= usize::MAX && self.spec_ips().len()
                * ports@.len() <= usize::MAX),
            r matches Some(pool) ==> {
                &&& pool.wf()
                &&& pool.spec_batch_size() == self.spec_batch_size()
                &&& pool.spec_in_flight() == 0
                &&& pool.spec_handed_out() == 0
                &&& pool.spec_sockets() == cross_product(ports@, self.spec_ips())
                &&& pool.spec_error_cap() == self.spec_ips().len() * 1000
            },
    {
        let cap = match self.ips.len().checked_mul(1000) {
            Some(c) => c,
            None => {
                return None;
            },
        };
        match self.ips.len().checked_mul(ports.len()) {
            Some(_) => Some(ScanPool::new(&self.ips, ports, self.batch_size, cap)),
            None => None,
        }
    }
}

} // verus!
