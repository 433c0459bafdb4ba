//! Scan results: how a connection attempt is classified, how results are
//! ordered, and how a target name is cleaned before it is resolved.
use vstd::prelude::*;
use vstd::string::StringExecFns;

use crate::error::{PortPeekError, PortPeekErrorView};
use crate::services::{get_service_hint, opt_str_view, spec_service_hint};
use crate::text::{chars_of, string_of};

verus! {

/// The state of a scanned port.
#[derive(Clone, Copy, Debug, PartialEq, Eq, Structural)]
pub enum PortStatus {
    /// The TCP handshake completed.
    Open,
    /// The target refused the connection (or failed it otherwise).
    Closed,
    /// No answer came before the deadline.
    Timeout,
}

/// The result of scanning one port.
#[derive(Clone, Copy, Debug)]
pub struct ScanResult {
    pub port: u16,
    pub status: PortStatus,
    /// Connection latency of an open port, in tenths of a millisecond.
    pub latency_tenths_ms: Option<u64>,
    /// The common service of the port, when hints are enabled.
    pub service: Option<&'static str>,
}

/// What one connection attempt came to.
#[derive(Clone, Copy, Debug, PartialEq, Eq, Structural)]
pub enum ConnectOutcome {
    /// The connection was established; the latency is rounded to tenths of
    /// a millisecond.
    Connected { latency_tenths_ms: u64 },
    /// The attempt failed with an error; `timed_out` tells whether the
    /// error was a time-out.
    Failed { timed_out: bool },
    /// The deadline passed before the attempt finished.
    DeadlineExpired,
}

/// The status that an outcome gives a port.
pub open spec fn outcome_status(outcome: ConnectOutcome) -> PortStatus {
    match outcome {
        ConnectOutcome::Connected { .. } => PortStatus::Open,
        ConnectOutcome::Failed { timed_out } => if timed_out {
            PortStatus::Timeout
        } else {
            PortStatus::Closed
        },
        ConnectOutcome::DeadlineExpired => PortStatus::Timeout,
    }
}

/// The latency that an outcome records: only an established connection has one.
pub open spec fn outcome_latency(outcome: ConnectOutcome) -> Option<u64> {
    match outcome {
        ConnectOutcome::Connected { latency_tenths_ms } => Some(latency_tenths_ms),
        _ => None,
    }
}

/// The result of scanning `port` when the attempt came to `outcome`.
pub fn scan_result(port: u16, outcome: ConnectOutcome, no_hints: bool) -> (r: ScanResult)
    ensures
        r.port == port,
        r.status == outcome_status(outcome),
        r.latency_tenths_ms == outcome_latency(outcome),
        opt_str_view(r.service) == spec_service_hint(port, no_hints),
{
    let service = get_service_hint(port, no_hints);
    match outcome {
        ConnectOutcome::Connected { latency_tenths_ms } => ScanResult {
            port,
            status: PortStatus::Open,
            latency_tenths_ms: Some(latency_tenths_ms),
            service,
        },
        ConnectOutcome::Failed { timed_out } => {
            let status = if timed_out {
                PortStatus::Timeout
            } else {
                PortStatus::Closed
            };
            ScanResult { port, status, latency_tenths_ms: None, service }
        },
        ConnectOutcome::DeadlineExpired => ScanResult {
            port,
            status: PortStatus::Timeout,
            latency_tenths_ms: None,
            service,
        },
    }
}

/// The results in `s` for port `p`, in their order in `s`.
pub open spec fn with_port(s: Seq<ScanResult>, p: u16) -> Seq<ScanResult>
    decreases s.len(),
{
    if s.len() == 0 {
        Seq::empty()
    } else if s.last().port == p {
        with_port(s.drop_last(), p).push(s.last())
    } else {
        with_port(s.drop_last(), p)
    }
}

/// Whether the results in `s` are in increasing order of port.
pub open spec fn sorted_by_port(s: Seq<ScanResult>) -> bool {
    forall|i: int, j: int| 0 <= i <= j < s.len() ==> s[i].port <= s[j].port
}

/// `with_port` of a concatenation is the concatenation of `with_port`.
pub proof fn lemma_with_port_add(a: Seq<ScanResult>, b: Seq<ScanResult>, p: u16)
    ensures
        with_port(a + b, p) == with_port(a, p) + with_port(b, p),
    decreases b.len(),
{
    if b.len() == 0 {
        assert(a + b =~= a);
        assert(with_port(a, p) + with_port(b, p) =~= with_port(a, p));
    } else {
        assert((a + b).drop_last() =~= a + b.drop_last());
        lemma_with_port_add(a, b.drop_last(), p);
        if b.last().port == p {
            assert(with_port(a, p) + with_port(b.drop_last(), p).push(b.last()) =~= (with_port(a, p)
                + with_port(b.drop_last(), p)).push(b.last()));
        }
    }
}

/// No result for `p` is taken from a sequence that has no result for `p`.
pub proof fn lemma_with_port_none(s: Seq<ScanResult>, p: u16)
    requires
        forall|k: int| 0 <= k < s.len() ==> s[k].port != p,
    ensures
        with_port(s, p) == Seq::<ScanResult>::empty(),
    decreases s.len(),
{
    if s.len() > 0 {
        lemma_with_port_none(s.drop_last(), p);
    }
}

proof fn lemma_merge_take_first(
    r: Seq<ScanResult>,
    a: Seq<ScanResult>,
    b: Seq<ScanResult>,
    x: ScanResult,
    p: u16,
)
    requires
        with_port(r, p) == with_port(a, p) + with_port(b, p),
        x.port == p ==> forall|k: int| 0 <= k < b.len() ==> b[k].port != p,
    ensures
        with_port(r.push(x), p) == with_port(a.push(x), p) + with_port(b, p),
{
    assert(r.push(x).drop_last() =~= r);
    assert(a.push(x).drop_last() =~= a);
    if x.port == p {
        lemma_with_port_none(b, p);
        assert(with_port(a, p).push(x) + Seq::<ScanResult>::empty() =~= (with_port(a, p)
            + Seq::<ScanResult>::empty()).push(x));
    }
}

proof fn lemma_merge_take_second(
    r: Seq<ScanResult>,
    a: Seq<ScanResult>,
    b: Seq<ScanResult>,
    x: ScanResult,
    p: u16,
)
    requires
        with_port(r, p) == with_port(a, p) + with_port(b, p),
    ensures
        with_port(r.push(x), p) == with_port(a, p) + with_port(b.push(x), p),
{
    assert(r.push(x).drop_last() =~= r);
    assert(b.push(x).drop_last() =~= b);
    if x.port == p {
        assert((with_port(a, p) + with_port(b, p)).push(x) =~= with_port(a, p) + with_port(
            b,
            p,
        ).push(x));
    }
}

/// Merges two runs sorted by port, taking from `a` first among equal ports.
fn merge_by_port(a: Vec<ScanResult>, b: Vec<ScanResult>) -> (r: Vec<ScanResult>)
    requires
        sorted_by_port(a@),
        sorted_by_port(b@),
    ensures
        sorted_by_port(r@),
        r.len() == a.len() + b.len(),
        forall|p: u16| #[trigger] with_port(r@, p) == with_port(a@, p) + with_port(b@, p),
{
    let mut r: Vec<ScanResult> = Vec::new();
    let mut i: usize = 0;
    let mut j: usize = 0;
    proof {
        assert forall|p: u16| #[trigger] with_port(r@, p) == with_port(a@.take(0), p) + with_port(
            b@.take(0),
            p,
        ) by {
            assert(a@.take(0) =~= Seq::<ScanResult>::empty());
            assert(b@.take(0) =~= Seq::<ScanResult>::empty());
            assert(Seq::<ScanResult>::empty() + Seq::<ScanResult>::empty() =~= Seq::<
                ScanResult,
            >::empty());
        }
    }
    while i < a.len() || j < b.len()
        invariant
            i <= a.len(),
            j <= b.len(),
            r.len() == i + j,
            sorted_by_port(a@),
            sorted_by_port(b@),
            sorted_by_port(r@),
            r.len() > 0 && i < a.len() ==> r@.last().port <= a@[i as int].port,
            r.len() > 0 && j < b.len() ==> r@.last().port <= b@[j as int].port,
            i < a.len() && j > 0 ==> b@[j - 1].port < a@[i as int].port,
            forall|p: u16| #[trigger]
                with_port(r@, p) == with_port(a@.take(i as int), p) + with_port(
                    b@.take(j as int),
                    p,
                ),
        decreases a.len() + b.len() - i - j,
    {
        let ghost old_r = r@;
        let take_a = j >= b.len() || (i < a.len() && a[i].port <= b[j].port);
        if take_a {
            let x = a[i];
            r.push(x);
            proof {
                assert(a@.take(i + 1) =~= a@.take(i as int).push(x));
                assert forall|p: u16| #[trigger]
                    with_port(r@, p) == with_port(a@.take(i + 1), p) + with_port(
                        b@.take(j as int),
                        p,
                    ) by {
                    if x.port == p && j > 0 {
                        assert forall|k: int| 0 <= k < b@.take(j as int).len() implies b@.take(
                            j as int,
                        )[k].port != p by {
                            assert(b@[k].port <= b@[j - 1].port);
                        }
                    }
                    lemma_merge_take_first(old_r, a@.take(i as int), b@.take(j as int), x, p);
                }
            }
            i = i + 1;
        } else {
            let x = b[j];
            r.push(x);
            proof {
                assert(b@.take(j + 1) =~= b@.take(j as int).push(x));
                assert forall|p: u16| #[trigger]
                    with_port(r@, p) == with_port(a@.take(i as int), p) + with_port(
                        b@.take(j + 1),
                        p,
                    ) by {
                    lemma_merge_take_second(old_r, a@.take(i as int), b@.take(j as int), x, p);
                }
            }
            j = j + 1;
        }
    }
    proof {
        assert(a@.take(a.len() as int) =~= a@);
        assert(b@.take(b.len() as int) =~= b@);
    }
    r
}

/// Sorts `v[lo..hi]` by port, keeping results for the same port in order.
fn sort_range(v: &Vec<ScanResult>, lo: usize, hi: usize) -> (r: Vec<ScanResult>)
    requires
        lo <= hi <= v.len(),
    ensures
        sorted_by_port(r@),
        r.len() == hi - lo,
        forall|p: u16| #[trigger]
            with_port(r@, p) == with_port(v@.subrange(lo as int, hi as int), p),
    decreases hi - lo,
{
    if hi - lo <= 1 {
        let mut r: Vec<ScanResult> = Vec::new();
        if hi > lo {
            r.push(v[lo]);
        }
        proof {
            assert(r@ =~= v@.subrange(lo as int, hi as int));
        }
        return r;
    }
    let mid = lo + (hi - lo) / 2;
    let left = sort_range(v, lo, mid);
    let right = sort_range(v, mid, hi);
    let r = merge_by_port(left, right);
    proof {
        assert forall|p: u16| #[trigger]
            with_port(r@, p) == with_port(v@.subrange(lo as int, hi as int), p) by {
            assert(v@.subrange(lo as int, hi as int) =~= v@.subrange(lo as int, mid as int)
                + v@.subrange(mid as int, hi as int));
            lemma_with_port_add(
                v@.subrange(lo as int, mid as int),
                v@.subrange(mid as int, hi as int),
                p,
            );
        }
    }
    r
}

/// The results in increasing order of port; results for the same port keep
/// their relative order (a stable sort by port).
pub fn order_results(results: Vec<ScanResult>) -> (r: Vec<ScanResult>)
    ensures
        sorted_by_port(r@),
        r.len() == results.len(),
        forall|p: u16| #[trigger] with_port(r@, p) == with_port(results@, p),
{
    let n = results.len();
    let r = sort_range(&results, 0, n);
    proof {
        assert(results@.subrange(0, n as int) =~= results@);
    }
    r
}

/// Whether `c` is a square bracket.
pub open spec fn is_bracket(c: char) -> bool {
    c == '[' || c == ']'
}

/// `s` without its leading square brackets.
pub open spec fn strip_brackets_start(s: Seq<char>) -> Seq<char>
    decreases s.len(),
{
    if s.len() > 0 && is_bracket(s[0]) {
        strip_brackets_start(s.drop_first())
    } else {
        s
    }
}

/// `s` without its trailing square brackets.
pub open spec fn strip_brackets_end(s: Seq<char>) -> Seq<char>
    decreases s.len(),
{
    if s.len() > 0 && is_bracket(s.last()) {
        strip_brackets_end(s.drop_last())
    } else {
        s
    }
}

/// A target without the square brackets around it, as an IPv6 address in
/// brackets (`[::1]`) is written.
pub open spec fn spec_clean_target(s: Seq<char>) -> Seq<char> {
    strip_brackets_end(strip_brackets_start(s))
}

/// Removes every leading and trailing square bracket from `target`, so that
/// an address written as `[::1]` can be read as `::1`.
pub fn clean_target(target: &str) -> (r: String)
    ensures
        r@ == spec_clean_target(target@),
{
    let cs = chars_of(target);
    let n = cs.len();
    let mut a: usize = 0;
    proof {
        assert(cs@.subrange(0, n as int) =~= cs@);
    }
    while a < n && (cs[a] == '[' || cs[a] == ']')
        invariant
            a <= n == cs.len(),
            strip_brackets_start(cs@) == strip_brackets_start(cs@.subrange(a as int, n as int)),
        decreases n - a,
    {
        proof {
            assert(cs@.subrange(0, n as int) =~= cs@);
            assert(cs@.subrange(a as int, n as int).drop_first() =~= cs@.subrange(
                a + 1,
                n as int,
            ));
        }
        a = a + 1;
    }
    proof {
        assert(cs@.subrange(0, n as int) =~= cs@);
        let t = cs@.subrange(a as int, n as int);
        if t.len() > 0 {
            assert(t[0] == cs@[a as int]);
        }
    }
    let mut b = n;
    while b > a && (cs[b - 1] == '[' || cs[b - 1] == ']')
        invariant
            a <= b <= n == cs.len(),
            strip_brackets_start(cs@) == cs@.subrange(a as int, n as int),
            spec_clean_target(cs@) == strip_brackets_end(cs@.subrange(a as int, b as int)),
        decreases b - a,
    {
        proof {
            assert(cs@.subrange(a as int, b as int).drop_last() =~= cs@.subrange(
                a as int,
                b - 1,
            ));
        }
        b = b - 1;
    }
    proof {
        let t = cs@.subrange(a as int, b as int);
        if t.len() > 0 {
            assert(t.last() == cs@[b - 1]);
        }
    }
    string_of(&cs, a, b)
}

/// An optional string viewed as an optional character sequence.
pub open spec fn opt_reason(s: Option<String>) -> Option<Seq<char>> {
    match s {
        Some(t) => Some(t@),
        None => None,
    }
}

/// The reason given for a failed resolution: the lookup's error when there
/// was one, otherwise that no address came back.
pub open spec fn failure_reason(lookup_error: Option<Seq<char>>) -> Seq<char> {
    match lookup_error {
        Some(reason) => reason,
        None => "No IP addresses returned"@,
    }
}

/// The error for a target that could not be resolved: the lookup's own
/// reason when it failed, otherwise the report that it found no address.
pub fn resolution_failure(target: &str, lookup_error: Option<String>) -> (e: PortPeekError)
    ensures
        e@ == (PortPeekErrorView::DnsResolutionFailed {
            target: target@,
            reason: failure_reason(opt_reason(lookup_error)),
        }),
{
    let reason = match lookup_error {
        Some(reason) => reason,
        None => String::from_str("No IP addresses returned"),
    };
    PortPeekError::DnsResolutionFailed { target: String::from_str(target), reason }
}

} // verus!
