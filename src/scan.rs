//! The decisions of the host and port scan engines: the one-run-at-a-time
//! guard with its cancellation flag, the shared work cursor, de-duplication of
//! what is reported, and progress. Whoever runs the probes (threads, sockets,
//! the system's neighbour table) feeds their results in here and emits what
//! comes back.

use vstd::prelude::*;

use crate::discovery::HostRecord;

use crate::addr::{
    block_size, cidr_of, ip_to_string, ipv4_of, ipv4_text, is_special, is_special_ip,
    lemma_pow2_mono, parse_cidr, parse_ipv4, AddressRange, CidrError,
};
use crate::ports::{parse_ports, port_list_of, ports_in, strictly_increasing, PortError};

verus! {

/// The most addresses that one host scan will probe.
pub const MAX_HOSTS: u64 = 512;

/// The most worker threads of one scan.
pub const MAX_WORKERS: usize = 64;

/// Why a scan did not start.
#[derive(Debug, Clone, Copy, PartialEq, Eq, Structural)]
pub enum ScanError {
    /// A run of this engine is still active.
    AlreadyRunning,
    /// The subnet is not a valid CIDR range.
    InvalidSubnet(CidrError),
    /// The port list is not valid.
    InvalidPorts(PortError),
}

/// How a run ended, as reported to the observer.
#[derive(Debug, Clone, Copy, PartialEq, Eq, Structural)]
pub enum ScanEnd {
    /// The run was cancelled, or refused before probing.
    Stopped,
    /// The run went through; `count` identities were reported.
    Done { count: usize },
}

/// The run flags of one engine: whether a run is active, and whether its
/// cancellation was asked for.
#[derive(Debug, Clone, Copy, PartialEq, Eq, Structural)]
pub struct Lifecycle {
    pub running: bool,
    pub cancel_requested: bool,
}

/// A start request: refused while a run is active, otherwise the engine runs
/// with a fresh cancellation flag.
pub open spec fn start_spec(l: Lifecycle) -> (Lifecycle, Result<(), ScanError>) {
    if l.running {
        (l, Err(ScanError::AlreadyRunning))
    } else {
        (Lifecycle { running: true, cancel_requested: false }, Ok(()))
    }
}

/// Asking for cancellation raises the flag that workers check before each
/// unit of work; the run is still active until its workers have drained.
pub open spec fn cancel_spec(l: Lifecycle) -> Lifecycle {
    Lifecycle { running: l.running, cancel_requested: true }
}

/// A completed stop: cancellation is asked for and, the workers having
/// drained, the engine is idle.
pub open spec fn stop_spec(l: Lifecycle) -> Lifecycle {
    Lifecycle { running: false, cancel_requested: true }
}

/// The end of a run that reported `count` identities: `Done` unless
/// cancellation was asked for, and the engine is idle again.
pub open spec fn finish_spec(l: Lifecycle, count: usize) -> (Lifecycle, ScanEnd) {
    (
        Lifecycle { running: false, cancel_requested: l.cancel_requested },
        if l.cancel_requested {
            ScanEnd::Stopped
        } else {
            ScanEnd::Done { count }
        },
    )
}

impl Lifecycle {
    /// An idle engine.
    pub fn new() -> (r: Lifecycle)
        ensures
            !r.running,
            !r.cancel_requested,
    {
        Lifecycle { running: false, cancel_requested: false }
    }

    /// Claims the engine for a new run.
    pub fn start(&mut self) -> (r: Result<(), ScanError>)
        ensures
            (*final(self), r) == start_spec(*old(self)),
    {
        if self.running {
            return Err(ScanError::AlreadyRunning);
        }
        self.running = true;
        self.cancel_requested = false;
        Ok(())
    }

    /// Asks the active run, if any, to stop taking work. The caller then
    /// waits for the run's workers and completes the stop with `stop`.
    pub fn request_cancel(&mut self)
        ensures
            *final(self) == cancel_spec(*old(self)),
    {
        self.cancel_requested = true;
    }

    /// Completes a stop once the run's workers, if any, have been joined:
    /// the engine is idle and the answer is always `Stopped`, also when
    /// nothing was running.
    pub fn stop(&mut self) -> (r: ScanEnd)
        ensures
            *final(self) == stop_spec(*old(self)),
            !final(self).running,
            r == ScanEnd::Stopped,
    {
        self.cancel_requested = true;
        self.running = false;
        ScanEnd::Stopped
    }

    /// Whether workers should take another unit of work.
    pub fn should_continue(&self) -> (r: bool)
        ensures
            r == !self.cancel_requested,
    {
        !self.cancel_requested
    }

    /// Ends the active run after its workers have joined.
    pub fn finish(&mut self, count: usize) -> (r: ScanEnd)
        ensures
            (*final(self), r) == finish_spec(*old(self), count),
    {
        self.running = false;
        if self.cancel_requested {
            ScanEnd::Stopped
        } else {
            ScanEnd::Done { count }
        }
    }

    /// Gives the engine back without a run: the request was refused after
    /// the guard was taken.
    pub fn release(&mut self) -> (r: ScanEnd)
        ensures
            !final(self).running,
            final(self).cancel_requested == old(self).cancel_requested,
            r == ScanEnd::Stopped,
    {
        self.running = false;
        ScanEnd::Stopped
    }
}

/// Stopping an idle engine is harmless: it answers `Stopped`, starts nothing,
/// and a later start is still accepted.
pub proof fn lemma_stop_when_idle(l: Lifecycle)
    requires
        !l.running,
    ensures
        !stop_spec(l).running,
        start_spec(stop_spec(l)).1 is Ok,
{
}

/// A run that is stopped right after it started ends `Stopped`, never
/// `Done`: its workers, which finish it while cancellation is asked for,
/// report `Stopped`. The stop leaves the engine idle, so that the next
/// start succeeds.
pub proof fn lemma_cancel_then_restart(l: Lifecycle, count: usize)
    requires
        !l.running,
    ensures
        start_spec(l).1 is Ok,
        finish_spec(cancel_spec(start_spec(l).0), count).1 == ScanEnd::Stopped,
        !stop_spec(cancel_spec(start_spec(l).0)).running,
        !stop_spec(finish_spec(cancel_spec(start_spec(l).0), count).0).running,
        start_spec(stop_spec(start_spec(l).0)).1 is Ok,
        start_spec(stop_spec(finish_spec(cancel_spec(start_spec(l).0), count).0)).1 is Ok,
{
}

/// The number of workers for `units` units of work: at most 64, at least one.
pub fn worker_count(units: usize) -> (r: usize)
    ensures
        r == if units == 0 {
            1
        } else if units < MAX_WORKERS {
            units
        } else {
            MAX_WORKERS
        },
        1 <= r <= MAX_WORKERS,
{
    if units == 0 {
        1
    } else if units < MAX_WORKERS {
        units
    } else {
        MAX_WORKERS
    }
}

/// Progress as a whole percentage, rounded down.
pub fn percent(done: usize, total: usize) -> (r: u32)
    requires
        0 < total,
        done <= total,
    ensures
        r == done as nat * 100 / total as nat,
        r <= 100,
{
    assert(done as nat * 100 / total as nat <= 100) by (nonlinear_arith)
        requires
            0 < total,
            done <= total,
    ;
    assert(done as nat * 100 <= usize::MAX as nat * 100) by (nonlinear_arith)
        requires
            done <= total,
    ;
    ((done as u128 * 100) / total as u128) as u32
}

/// How many entries of `s` are set.
pub open spec fn count_true(s: Seq<bool>) -> nat
    decreases s.len(),
{
    if s.len() == 0 {
        0
    } else {
        count_true(s.drop_last()) + if s.last() {
            1nat
        } else {
            0nat
        }
    }
}

proof fn lemma_count_true_bound(s: Seq<bool>)
    ensures
        count_true(s) <= s.len(),
    decreases s.len(),
{
    if s.len() > 0 {
        lemma_count_true_bound(s.drop_last());
    }
}

proof fn lemma_count_true_none(n: nat)
    ensures
        count_true(Seq::new(n, |_i: int| false)) == 0,
    decreases n,
{
    if n > 0 {
        assert(Seq::new(n, |_i: int| false).drop_last() =~= Seq::new((n - 1) as nat, |_i: int| false));
        lemma_count_true_none((n - 1) as nat);
    }
}

proof fn lemma_count_true_set(s: Seq<bool>, k: int)
    requires
        0 <= k < s.len(),
        !s[k],
    ensures
        count_true(s.update(k, true)) == count_true(s) + 1,
    decreases s.len(),
{
    let t = s.update(k, true);
    if k < s.len() - 1 {
        assert(t.drop_last() =~= s.drop_last().update(k, true));
        lemma_count_true_set(s.drop_last(), k);
    } else {
        assert(t.drop_last() =~= s.drop_last());
    }
}

/// What a worker does next.
#[derive(Debug, Clone, Copy, PartialEq, Eq, Structural)]
pub enum HostUnit {
    /// Probe this address, then report the unit done.
    Probe(u32),
    /// A multicast or broadcast address: not probed, and not counted.
    Skip(u32),
    /// No work is left, or the run was cancelled.
    Finished,
}

/// One host scan over the addresses `start..=end`.
pub struct HostScan {
    start: u32,
    end: u32,
    total: usize,
    cursor: usize,
    completed: usize,
    seen: Vec<bool>,
    reported: usize,
    found: Ghost<Seq<u32>>,
}

impl HostScan {
    /// The addresses reported so far, in the order they were reported.
    pub closed spec fn found(&self) -> Seq<u32> {
        self.found@
    }

    pub closed spec fn first(&self) -> u32 {
        self.start
    }

    pub closed spec fn last(&self) -> u32 {
        self.end
    }

    /// Units handed out so far.
    pub closed spec fn handed_out(&self) -> nat {
        self.cursor as nat
    }

    /// Units reported done so far.
    pub closed spec fn done_units(&self) -> nat {
        self.completed as nat
    }

    pub closed spec fn wf(&self) -> bool {
        &&& self.start <= self.end
        &&& self.total == self.end - self.start + 1
        &&& self.total <= MAX_HOSTS
        &&& self.completed <= self.cursor <= self.total
        &&& self.seen@.len() == self.total
        &&& self.reported == self.found@.len()
        &&& self.reported == count_true(self.seen@)
        &&& self.found@.no_duplicates()
        &&& forall|k: int| 0 <= k < self.total ==> (self.seen@[k] <==> self.found@.contains((self.start + k) as u32))
        &&& forall|k: int| 0 <= k < self.found@.len() ==> self.start <= #[trigger] self.found@[k] <= self.end
    }

    /// Units of work in the run: one per address.
    pub closed spec fn units(&self) -> nat {
        self.total as nat
    }

    /// A scan of the whole range, with nothing reported yet.
    pub fn new(range: AddressRange) -> (r: HostScan)
        requires
            range.wf(),
            range.size() <= MAX_HOSTS,
        ensures
            r.wf(),
            r.first() == range.base,
            r.last() == range.base + range.size() - 1,
            r.units() == range.size(),
            r.found() == Seq::<u32>::empty(),
            r.handed_out() == 0,
            r.done_units() == 0,
    {
        let n = range.host_count();
        let end = range.last();
        let total = n as usize;
        let seen = vec![false; total];
        proof {
            assert(seen@ =~= Seq::new(total as nat, |_i: int| false));
            lemma_count_true_none(total as nat);
            vstd::arithmetic::power2::lemma_pow2_pos((32 - range.prefix_len) as nat);
        }
        HostScan {
            start: range.base,
            end,
            total,
            cursor: 0,
            completed: 0,
            seen,
            reported: 0,
            found: Ghost(Seq::empty()),
        }
    }

    /// Offers a host for reporting. It is accepted, and must then be
    /// reported, only if its address lies in the range, is not multicast or
    /// broadcast, and was not accepted before.
    pub fn offer(&mut self, ip: &str) -> (r: bool)
        requires
            old(self).wf(),
        ensures
            final(self).wf(),
            final(self).first() == old(self).first(),
            final(self).last() == old(self).last(),
            final(self).units() == old(self).units(),
            final(self).handed_out() == old(self).handed_out(),
            final(self).done_units() == old(self).done_units(),
            r == (!is_special(ip@) && ipv4_of(ip@) is Some && old(self).first() <= ipv4_of(ip@)->0
                <= old(self).last() && !old(self).found().contains(ipv4_of(ip@)->0)),
            final(self).found() == if r {
                old(self).found().push(ipv4_of(ip@)->0)
            } else {
                old(self).found()
            },
    {
        if is_special_ip(ip) {
            return false;
        }
        let v = match parse_ipv4(ip) {
            Some(v) => v,
            None => return false,
        };
        if v < self.start || v > self.end {
            return false;
        }
        let k = (v - self.start) as usize;
        assert((self.start + k) as u32 == v);
        if self.seen[k] {
            return false;
        }
        proof {
            lemma_count_true_set(self.seen@, k as int);
            lemma_count_true_bound(self.seen@.update(k as int, true));
        }
        self.seen.set(k, true);
        self.reported = self.reported + 1;
        let ghost old_found = self.found@;
        self.found = Ghost(self.found@.push(v));
        proof {
            assert forall|j: int| 0 <= j < self.total implies (self.seen@[j] <==> self.found@.contains((self.start + j) as u32)) by {
                if j != k {
                    assert(old_found.contains((self.start + j) as u32) ==> self.found@.contains((self.start + j) as u32)) by {
                        if old_found.contains((self.start + j) as u32) {
                            let i = choose|i: int| 0 <= i < old_found.len() && old_found[i] == (self.start + j) as u32;
                            assert(self.found@[i] == old_found[i]);
                        }
                    }
                    if self.found@.contains((self.start + j) as u32) {
                        let i = choose|i: int| 0 <= i < self.found@.len() && self.found@[i] == (self.start + j) as u32;
                        if i < old_found.len() {
                            assert(old_found[i] == self.found@[i]);
                        }
                    }
                } else {
                    assert(self.found@[old_found.len() as int] == v);
                }
            }
            assert forall|a: int, b: int| 0 <= a < self.found@.len() && 0 <= b < self.found@.len() && a != b
                implies self.found@[a] != self.found@[b] by {
                if a < old_found.len() && b < old_found.len() {
                    assert(old_found[a] == self.found@[a] && old_found[b] == self.found@[b]);
                } else if a < old_found.len() {
                    assert(old_found[a] == self.found@[a]);
                    assert(old_found.contains(self.found@[a]));
                } else if b < old_found.len() {
                    assert(old_found[b] == self.found@[b]);
                    assert(old_found.contains(self.found@[b]));
                }
            }
            assert forall|j: int| 0 <= j < self.found@.len() implies self.start <= #[trigger] self.found@[j] <= self.end by {
                if j < old_found.len() {
                    assert(old_found[j] == self.found@[j]);
                }
            }
        }
        true
    }

    /// Hands out the next address, unless the run is cancelled or every
    /// address has been handed out.
    pub fn next_unit(&mut self, cancelled: bool) -> (r: HostUnit)
        requires
            old(self).wf(),
        ensures
            final(self).wf(),
            final(self).first() == old(self).first(),
            final(self).last() == old(self).last(),
            final(self).units() == old(self).units(),
            final(self).found() == old(self).found(),
            final(self).done_units() == old(self).done_units(),
            cancelled || old(self).handed_out() >= old(self).units() ==> r == HostUnit::Finished
                && final(self).handed_out() == old(self).handed_out(),
            !cancelled && old(self).handed_out() < old(self).units() ==> {
                let ip = (old(self).first() + old(self).handed_out()) as u32;
                &&& final(self).handed_out() == old(self).handed_out() + 1
                &&& r == if is_special(ipv4_text(ip)) {
                    HostUnit::Skip(ip)
                } else {
                    HostUnit::Probe(ip)
                }
            },
    {
        if cancelled || self.cursor >= self.total {
            return HostUnit::Finished;
        }
        let ip = self.start + self.cursor as u32;
        self.cursor = self.cursor + 1;
        let s = ip_to_string(ip);
        if is_special_ip(s.as_str()) {
            HostUnit::Skip(ip)
        } else {
            HostUnit::Probe(ip)
        }
    }

    /// Reports one probed unit done; answers the progress percentage.
    pub fn unit_done(&mut self) -> (r: u32)
        requires
            old(self).wf(),
            old(self).done_units() < old(self).handed_out(),
        ensures
            final(self).wf(),
            final(self).first() == old(self).first(),
            final(self).last() == old(self).last(),
            final(self).units() == old(self).units(),
            final(self).found() == old(self).found(),
            final(self).handed_out() == old(self).handed_out(),
            final(self).done_units() == old(self).done_units() + 1,
            r == final(self).done_units() * 100 / final(self).units(),
            r <= 100,
    {
        self.completed = self.completed + 1;
        percent(self.completed, self.total)
    }

    /// How many units of work the run has: one per address.
    pub fn unit_count(&self) -> (r: usize)
        requires
            self.wf(),
        ensures
            r == self.units(),
            1 <= r <= MAX_HOSTS,
    {
        self.total
    }

    /// How many hosts were reported.
    pub fn found_count(&self) -> (r: usize)
        requires
            self.wf(),
        ensures
            r == self.found().len(),
    {
        self.reported
    }
}

/// No address is reported twice in one host scan.
pub proof fn lemma_hosts_reported_once(s: HostScan)
    requires
        s.wf(),
    ensures
        s.found().no_duplicates(),
        forall|k: int| 0 <= k < s.found().len() ==> s.first() <= #[trigger] s.found()[k] <= s.last(),
{
}

/// How a host scan request begins.
pub enum HostScanStart {
    /// Probe this range.
    Probe(HostScan),
    /// The range holds more than `MAX_HOSTS` addresses: nothing is probed,
    /// the engine is idle again, and the observer is told `Stopped`.
    TooLarge,
}

/// Starts a host scan of `subnet`: the subnet is checked first, then the
/// engine is claimed; a range over the cap releases it again at once.
pub fn start_host_scan(engine: &mut Lifecycle, subnet: &str) -> (r: Result<HostScanStart, ScanError>)
    ensures
        match cidr_of(subnet@) {
            Err(e) => r == Err::<HostScanStart, ScanError>(ScanError::InvalidSubnet(e))
                && *final(engine) == *old(engine),
            Ok(range) => if old(engine).running {
                r == Err::<HostScanStart, ScanError>(ScanError::AlreadyRunning)
                    && *final(engine) == *old(engine)
            } else if range.size() > MAX_HOSTS {
                r matches Ok(HostScanStart::TooLarge) && !final(engine).running
            } else {
                &&& final(engine).running
                &&& !final(engine).cancel_requested
                &&& r matches Ok(HostScanStart::Probe(s))
                &&& s.wf()
                &&& s.first() == range.base
                &&& s.last() == range.base + range.size() - 1
                &&& s.units() == range.size()
                &&& s.found() == Seq::<u32>::empty()
                &&& s.handed_out() == 0
                &&& s.done_units() == 0
            },
        },
{
    let range = match parse_cidr(subnet) {
        Ok(r) => r,
        Err(e) => return Err(ScanError::InvalidSubnet(e)),
    };
    if let Err(e) = engine.start() {
        return Err(e);
    }
    if range.host_count() > MAX_HOSTS {
        engine.release();
        return Ok(HostScanStart::TooLarge);
    }
    Ok(HostScanStart::Probe(HostScan::new(range)))
}

/// The connect timeout of a port probe, in milliseconds: 200 unless the
/// caller gives one, and always within `50..=2000`.
pub fn probe_timeout_ms(requested: Option<u64>) -> (r: u64)
    ensures
        r == match requested {
            None => 200,
            Some(t) => if t < 50 {
                50
            } else if t > 2000 {
                2000
            } else {
                t
            },
        },
        50 <= r <= 2000,
{
    match requested {
        None => 200,
        Some(t) => if t < 50 {
            50
        } else if t > 2000 {
            2000
        } else {
            t
        },
    }
}

/// One port scan over a sorted list of ports.
pub struct PortScan {
    ports: Vec<u16>,
    cursor: usize,
    completed: usize,
    open: Vec<bool>,
    reported: usize,
    found: Ghost<Seq<u16>>,
}

impl PortScan {
    /// The ports to probe, in order.
    pub closed spec fn ports(&self) -> Seq<u16> {
        self.ports@
    }

    /// The open ports reported so far, in the order they were reported.
    pub closed spec fn found(&self) -> Seq<u16> {
        self.found@
    }

    pub closed spec fn handed_out(&self) -> nat {
        self.cursor as nat
    }

    pub closed spec fn done_units(&self) -> nat {
        self.completed as nat
    }

    pub closed spec fn wf(&self) -> bool {
        &&& strictly_increasing(self.ports@)
        &&& 0 < self.ports@.len()
        &&& self.completed <= self.cursor <= self.ports@.len()
        &&& self.open@.len() == self.ports@.len()
        &&& self.reported == self.found@.len()
        &&& self.reported == count_true(self.open@)
        &&& self.found@.no_duplicates()
        &&& forall|k: int| 0 <= k < self.ports@.len() ==> (self.open@[k] <==> self.found@.contains(#[trigger] self.ports@[k]))
        &&& forall|j: int| 0 <= j < self.found@.len() ==> self.ports@.contains(#[trigger] self.found@[j])
    }

    /// A scan of `ports`, with nothing reported yet.
    pub fn new(ports: Vec<u16>) -> (r: PortScan)
        requires
            strictly_increasing(ports@),
            ports@.len() > 0,
        ensures
            r.wf(),
            r.ports() == ports@,
            r.found() == Seq::<u16>::empty(),
            r.handed_out() == 0,
            r.done_units() == 0,
    {
        let n = ports.len();
        let open = vec![false; n];
        proof {
            assert(open@ =~= Seq::new(n as nat, |_i: int| false));
            lemma_count_true_none(n as nat);
        }
        PortScan { ports, cursor: 0, completed: 0, open, reported: 0, found: Ghost(Seq::empty()) }
    }

    /// Hands out the index and number of the next port, unless the run is
    /// cancelled or every port has been handed out.
    pub fn next_port(&mut self, cancelled: bool) -> (r: Option<(usize, u16)>)
        requires
            old(self).wf(),
        ensures
            final(self).wf(),
            final(self).ports() == old(self).ports(),
            final(self).found() == old(self).found(),
            final(self).done_units() == old(self).done_units(),
            cancelled || old(self).handed_out() >= old(self).ports().len() ==> r is None
                && final(self).handed_out() == old(self).handed_out(),
            !cancelled && old(self).handed_out() < old(self).ports().len() ==> {
                &&& r == Some((old(self).handed_out() as usize, old(self).ports()[old(self).handed_out() as int]))
                &&& final(self).handed_out() == old(self).handed_out() + 1
            },
    {
        if cancelled || self.cursor >= self.ports.len() {
            return None;
        }
        let i = self.cursor;
        self.cursor = self.cursor + 1;
        Some((i, self.ports[i]))
    }

    /// Records that the port at `index` accepted a connection. Answers
    /// whether it is new, and must then be reported.
    pub fn record_open(&mut self, index: usize) -> (r: bool)
        requires
            old(self).wf(),
            index < old(self).ports().len(),
        ensures
            final(self).wf(),
            final(self).ports() == old(self).ports(),
            final(self).handed_out() == old(self).handed_out(),
            final(self).done_units() == old(self).done_units(),
            r == !old(self).found().contains(old(self).ports()[index as int]),
            final(self).found() == if r {
                old(self).found().push(old(self).ports()[index as int])
            } else {
                old(self).found()
            },
    {
        if self.open[index] {
            return false;
        }
        let p = self.ports[index];
        let n = self.open.len();
        assert(n == self.open@.len());
        proof {
            lemma_count_true_set(self.open@, index as int);
            lemma_count_true_bound(self.open@.update(index as int, true));
        }
        self.open.set(index, true);
        self.reported = self.reported + 1;
        let ghost old_found = self.found@;
        self.found = Ghost(self.found@.push(p));
        proof {
            assert forall|k: int| 0 <= k < self.ports@.len() implies (self.open@[k] <==> self.found@.contains(#[trigger] self.ports@[k])) by {
                if k != index {
                    if k < index {
                        assert(self.ports@[k] < self.ports@[index as int]);
                    } else {
                        assert(self.ports@[index as int] < self.ports@[k]);
                    }
                    if old_found.contains(self.ports@[k]) {
                        let i = choose|i: int| 0 <= i < old_found.len() && old_found[i] == self.ports@[k];
                        assert(self.found@[i] == old_found[i]);
                    }
                    if self.found@.contains(self.ports@[k]) {
                        let i = choose|i: int| 0 <= i < self.found@.len() && self.found@[i] == self.ports@[k];
                        if i < old_found.len() {
                            assert(old_found[i] == self.found@[i]);
                        }
                    }
                } else {
                    assert(self.found@[old_found.len() as int] == p);
                }
            }
            assert forall|a: int, b: int| 0 <= a < self.found@.len() && 0 <= b < self.found@.len() && a != b
                implies self.found@[a] != self.found@[b] by {
                if a < old_found.len() && b < old_found.len() {
                    assert(old_found[a] == self.found@[a] && old_found[b] == self.found@[b]);
                } else if a < old_found.len() {
                    assert(old_found[a] == self.found@[a]);
                    assert(old_found.contains(self.found@[a]));
                } else if b < old_found.len() {
                    assert(old_found[b] == self.found@[b]);
                    assert(old_found.contains(self.found@[b]));
                }
            }
            assert forall|j: int| 0 <= j < self.found@.len() implies self.ports@.contains(#[trigger] self.found@[j]) by {
                if j < old_found.len() {
                    assert(old_found[j] == self.found@[j]);
                } else {
                    assert(self.ports@[index as int] == p);
                }
            }
        }
        true
    }

    /// Reports one probed port done; answers the progress percentage.
    pub fn unit_done(&mut self) -> (r: u32)
        requires
            old(self).wf(),
            old(self).done_units() < old(self).handed_out(),
        ensures
            final(self).wf(),
            final(self).ports() == old(self).ports(),
            final(self).found() == old(self).found(),
            final(self).handed_out() == old(self).handed_out(),
            final(self).done_units() == old(self).done_units() + 1,
            r == final(self).done_units() * 100 / final(self).ports().len(),
            r <= 100,
    {
        self.completed = self.completed + 1;
        percent(self.completed, self.ports.len())
    }

    /// How many ports the run probes.
    pub fn port_count(&self) -> (r: usize)
        requires
            self.wf(),
        ensures
            r == self.ports().len(),
    {
        self.ports.len()
    }

    /// How many open ports were reported.
    pub fn found_count(&self) -> (r: usize)
        requires
            self.wf(),
        ensures
            r == self.found().len(),
    {
        self.reported
    }
}

/// No port is reported twice in one port scan, and every reported port is
/// one of those asked for.
pub proof fn lemma_ports_reported_once(s: PortScan)
    requires
        s.wf(),
    ensures
        s.found().no_duplicates(),
        forall|k: int| 0 <= k < s.found().len() ==> s.ports().contains(#[trigger] s.found()[k]),
{
}

/// Starts a port scan of the port list `ports`: the list is checked first,
/// then the engine is claimed.
pub fn start_port_scan(engine: &mut Lifecycle, ports: &str) -> (r: Result<PortScan, ScanError>)
    ensures
        match port_list_of(ports@) {
            Err(e) => r == Err::<PortScan, ScanError>(ScanError::InvalidPorts(e))
                && *final(engine) == *old(engine),
            Ok(ps) => if old(engine).running {
                r == Err::<PortScan, ScanError>(ScanError::AlreadyRunning)
                    && *final(engine) == *old(engine)
            } else {
                &&& final(engine).running
                &&& !final(engine).cancel_requested
                &&& r matches Ok(s)
                &&& s.wf()
                &&& strictly_increasing(s.ports())
                &&& ports_in(s.ports()) == ps
                &&& s.found() == Seq::<u16>::empty()
                &&& s.handed_out() == 0
                &&& s.done_units() == 0
            },
        },
{
    let list = match parse_ports(ports) {
        Ok(v) => v,
        Err(e) => return Err(ScanError::InvalidPorts(e)),
    };
    if let Err(e) = engine.start() {
        return Err(e);
    }
    proof {
        crate::ports::lemma_parsed_ports_sorted_unique(ports@, list@);
    }
    Ok(PortScan::new(list))
}

/// How long a liveness connection attempt may take, in milliseconds.
pub const LIVENESS_TIMEOUT_MS: u64 = 160;

/// The TCP ports tried on a host that the neighbour table does not list.
pub fn liveness_ports() -> (r: Vec<u16>)
    ensures
        r@ == seq![80u16, 443, 22, 445, 139, 3389],
{
    let r = vec![80u16, 443, 22, 445, 139, 3389];
    assert(r@ =~= seq![80u16, 443, 22, 445, 139, 3389]);
    r
}

/// Whether a host that the neighbour table does not list is reported
/// anyway: only in deep mode, and only when a name was found for it or one
/// of the liveness ports accepted a connection. This is a best-effort
/// guess: a filtered host and noise look alike.
pub fn unlisted_host_alive(deep: bool, has_name: bool, port_open: bool) -> (r: bool)
    ensures
        r == (deep && (has_name || port_open)),
{
    deep && (has_name || port_open)
}

/// The cap on a host scan falls between prefix lengths 22 and 23: a range
/// of prefix 23 or longer (a `/24` holds 256 addresses) is probed, and a
/// shorter one (a `/16` holds 65536) is refused before any probing.
pub proof fn lemma_host_cap(prefix_len: nat)
    requires
        prefix_len <= 30,
    ensures
        block_size(prefix_len) <= MAX_HOSTS <==> prefix_len >= 23,
        prefix_len == 24 ==> block_size(prefix_len) == 256,
        prefix_len == 16 ==> block_size(prefix_len) == 65536,
{
    vstd::arithmetic::power2::lemma2_to64();
    if prefix_len >= 23 {
        lemma_pow2_mono((32 - prefix_len) as nat, 9);
    } else {
        lemma_pow2_mono(10, (32 - prefix_len) as nat);
    }
}

/// Whether a host from the neighbour table is still missing a name, which
/// is then looked for.
pub fn wants_hostname(record: &HostRecord) -> (r: bool)
    ensures
        r == (record.hostname@.len() == 0),
{
    record.hostname.as_str().is_empty()
}

/// `record` with the name that was found, when it had none.
pub fn with_hostname(record: HostRecord, found: Option<String>) -> (r: HostRecord)
    ensures
        r.ip == record.ip,
        r.mac == record.mac,
        r.vendor == record.vendor,
        r.hostname == match found {
            Some(n) => if record.hostname@.len() == 0 {
                n
            } else {
                record.hostname
            },
            None => record.hostname,
        },
{
    let mut record = record;
    match found {
        Some(n) => {
            if record.hostname.as_str().is_empty() {
                record.hostname = n;
            }
        },
        None => {},
    }
    record
}

/// Whether to try the liveness ports of a host missing from the neighbour
/// table: only in deep mode, and only when no name was found for it.
pub fn needs_port_probe(deep: bool, hostname: &Option<String>) -> (r: bool)
    ensures
        r == (deep && match hostname {
            Some(n) => n@.len() == 0,
            None => true,
        }),
{
    deep && match hostname {
        Some(n) => n.as_str().is_empty(),
        None => true,
    }
}

/// The record reported for a host missing from the neighbour table, when
/// `unlisted_host_alive` says it is up: no hardware address, and the name
/// that was found, if any.
pub fn unlisted_record(ip: String, deep: bool, hostname: Option<String>, port_open: bool) -> (r: Option<HostRecord>)
    ensures
        ({
            let name = match hostname {
                Some(n) => n@,
                None => Seq::<char>::empty(),
            };
            if deep && (name.len() > 0 || port_open) {
                r matches Some(h) && h.ip == ip && h.hostname@ == name && h.mac@ == "unknown"@
                    && h.vendor@ == "Unknown"@
            } else {
                r is None
            }
        }),
{
    let name = match hostname {
        Some(n) => n,
        None => String::new(),
    };
    let has_name = !name.as_str().is_empty();
    if unlisted_host_alive(deep, has_name, port_open) {
        Some(HostRecord::unlisted(ip, name))
    } else {
        None
    }
}

} // verus!
