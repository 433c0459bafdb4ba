//! The scan configuration: output format, validation and the ports to scan.
use std::collections::BTreeSet;
use vstd::prelude::*;

use crate::error::{PortPeekError, PortPeekErrorView};
use crate::ports::{add_piece, ascending, pieces_ports, port_list_ports, split_commas};
use crate::text::chars_of;

verus! {

/// How scan results are written out.
#[derive(Clone, Copy, Debug, PartialEq, Eq, Structural)]
pub enum OutputFormat {
    Terminal,
    Json,
    Csv,
}

/// The options of one run of the scanner.
#[derive(Debug, Clone)]
pub struct Args {
    /// Target hostname or IP address.
    pub target: String,
    /// Ports to scan, such as `22,80,443` or `1-1024`.
    pub ports: Option<String>,
    /// Connection timeout in milliseconds.
    pub timeout: u64,
    /// Maximum number of concurrent connections.
    pub concurrency: usize,
    /// Output format, when one is chosen.
    pub output: Option<OutputFormat>,
    /// Shorthand for a JSON output format.
    pub json: bool,
    /// Display only open ports.
    pub open_only: bool,
    /// Show only open ports, one per line, for scripting.
    pub quiet: bool,
    /// Re-scan the target at intervals.
    pub watch: bool,
    /// Seconds between re-scans in watch mode.
    pub watch_interval: u64,
    /// Disable service hints.
    pub no_service_hints: bool,
    /// Scan the common Minecraft port only.
    pub minecraft: bool,
    /// Fail when a scanned port is closed or timed out.
    pub fail_on_closed: bool,
    /// Fail when no scanned port is open.
    pub fail_if_none_open: bool,
}

/// The ports scanned when no port list is given.
pub open spec fn default_ports() -> Seq<u16> {
    seq![
        21u16, 22, 25, 53, 80, 110, 143, 443, 3000, 3306, 5432, 6379, 8000, 8080, 8443, 25565,
    ]
}

/// The port that the Minecraft preset scans.
pub open spec fn minecraft_port() -> u16 {
    25565
}

/// An optional string viewed as an optional character sequence.
pub open spec fn opt_string_view(s: Option<String>) -> Option<Seq<char>> {
    match s {
        Some(t) => Some(t@),
        None => None,
    }
}

/// The set of ports a run scans, or the error the port list is rejected
/// with: the Minecraft preset wins over everything, then the port list,
/// then the default ports.
pub open spec fn requested_ports(minecraft: bool, ports: Option<Seq<char>>) -> Result<
    Set<u16>,
    PortPeekErrorView,
> {
    if minecraft {
        Ok(set![minecraft_port()])
    } else {
        match ports {
            None => Ok(default_ports().to_set()),
            Some(s) => port_list_ports(s),
        }
    }
}

/// The output format that the options select: the JSON shorthand wins,
/// then the chosen format, then the terminal table.
pub open spec fn selected_format(json: bool, output: Option<OutputFormat>) -> OutputFormat {
    if json {
        OutputFormat::Json
    } else {
        match output {
            Some(f) => f,
            None => OutputFormat::Terminal,
        }
    }
}

impl Args {
    /// The output format that these options select.
    pub fn get_output_format(&self) -> (f: OutputFormat)
        ensures
            f == selected_format(self.json, self.output),
            self.json ==> f == OutputFormat::Json,
            !self.json && self.output is Some ==> f == self.output->0,
            !self.json && self.output is None ==> f == OutputFormat::Terminal,
    {
        if self.json {
            OutputFormat::Json
        } else {
            match self.output {
                Some(f) => f,
                None => OutputFormat::Terminal,
            }
        }
    }

    /// Checks that the concurrency limit and the timeout are both positive;
    /// the concurrency limit is checked first.
    pub fn validate(&self) -> (r: Result<(), PortPeekError>)
        ensures
            r is Ok <==> (self.concurrency != 0 && self.timeout != 0),
            self.concurrency == 0 ==> r is Err && r->Err_0@ == PortPeekErrorView::InvalidConcurrency(
                0,
            ),
            self.concurrency != 0 && self.timeout == 0 ==> r is Err && r->Err_0@
                == PortPeekErrorView::InvalidTimeout(0),
    {
        if self.concurrency == 0 {
            return Err(PortPeekError::InvalidConcurrency(self.concurrency));
        }
        if self.timeout == 0 {
            return Err(PortPeekError::InvalidTimeout(self.timeout));
        }
        Ok(())
    }
}

/// The ports a port list names, in increasing order and each once, or the
/// error of its first rejected piece; `NoPortsSpecified` when it names none.
pub fn parse_port_list(s: &str) -> (r: Result<Vec<u16>, PortPeekError>)
    ensures
        match port_list_ports(s@) {
            Ok(ports) => r is Ok && ascending(r->Ok_0@) && r->Ok_0@.to_set() == ports,
            Err(e) => r is Err && r->Err_0@ == e,
        },
{
    let cs = chars_of(s);
    let n = cs.len();
    let mut set: BTreeSet<u16> = BTreeSet::new();
    let mut failure: Option<PortPeekError> = None;
    let mut start: usize = 0;
    let mut i: usize = 0;
    let ghost mut done: Seq<Seq<char>> = seq![];
    proof {
        assert(cs@.take(0) =~= Seq::<char>::empty());
        assert(cs@.subrange(0, 0) =~= Seq::<char>::empty());
        assert(pieces_ports(done) == Ok::<Set<u16>, PortPeekErrorView>(Set::empty()));
        assert(set@ =~= Set::<u16>::empty());
    }
    while i < n
        invariant
            start <= i <= n,
            n == cs.len(),
            split_commas(cs@.take(i as int)) == done.push(cs@.subrange(start as int, i as int)),
            pieces_ports(done) == match failure {
                Some(e) => Err(e@),
                None => Ok::<Set<u16>, PortPeekErrorView>(set@),
            },
        decreases n - i,
    {
        let ghost cur = cs@.subrange(start as int, i as int);
        proof {
            assert(cs@.take(i + 1).drop_last() =~= cs@.take(i as int));
            assert(cs@.take(i + 1).last() == cs@[i as int]);
        }
        if cs[i] == ',' {
            if failure.is_none() {
                match add_piece(&cs, start, i, &mut set) {
                    Ok(()) => {},
                    Err(e) => {
                        failure = Some(e);
                    },
                }
            }
            proof {
                assert(done.push(cur).drop_last() =~= done);
                done = done.push(cur);
                assert(cs@.subrange(i + 1, i + 1) =~= Seq::<char>::empty());
            }
            start = i + 1;
        } else {
            proof {
                assert(cs@.subrange(start as int, i + 1) =~= cur.push(cs@[i as int]));
                assert(done.push(cur).update(done.len() as int, cur.push(cs@[i as int])) =~= done.push(
                    cs@.subrange(start as int, i + 1),
                ));
            }
        }
        i = i + 1;
    }
    let ghost cur = cs@.subrange(start as int, n as int);
    if failure.is_none() {
        match add_piece(&cs, start, n, &mut set) {
            Ok(()) => {},
            Err(e) => {
                failure = Some(e);
            },
        }
    }
    proof {
        assert(cs@.take(n as int) =~= cs@);
        assert(done.push(cur).drop_last() =~= done);
        done = done.push(cur);
        assert(split_commas(s@) == done);
    }
    match failure {
        Some(e) => {
            return Err(e);
        },
        None => {},
    }
    if set.is_empty() {
        return Err(PortPeekError::NoPortsSpecified);
    }
    let mut v: Vec<u16> = Vec::new();
    let mut q: u32 = 0;
    while q < 65536
        invariant
            q <= 65536,
            ascending(v@),
            forall|k: int| 0 <= k < v.len() ==> (v@[k] as u32) < q,
            forall|p: u16| v@.contains(p) <==> (set@.contains(p) && (p as u32) < q),
        decreases 65536 - q,
    {
        let p = q as u16;
        if set.contains(&p) {
            proof {
                assert forall|x: u16| v@.push(p).contains(x) <==> (set@.contains(x) && (x as u32)
                    < q + 1) by {
                    if v@.push(p).contains(x) && x != p {
                        let k = choose|k: int| 0 <= k < v@.push(p).len() && v@.push(p)[k] == x;
                        assert(v@[k] == x);
                    }
                    if set@.contains(x) && (x as u32) < q {
                        assert(v@.contains(x));
                        let k = choose|k: int| 0 <= k < v@.len() && v@[k] == x;
                        assert(v@.push(p)[k] == x);
                    }
                    if x == p {
                        assert(v@.push(p)[v@.len() as int] == x);
                    }
                }
            }
            v.push(p);
        }
        q = q + 1;
    }
    proof {
        assert(v@.to_set() =~= set@);
    }
    Ok(v)
}

/// The ports a run scans, in increasing order and each once, or the error
/// its port list is rejected with.
pub fn resolve_ports(args: &Args) -> (r: Result<Vec<u16>, PortPeekError>)
    ensures
        match requested_ports(args.minecraft, opt_string_view(args.ports)) {
            Ok(ports) => r is Ok && ascending(r->Ok_0@) && r->Ok_0@.to_set() == ports,
            Err(e) => r is Err && r->Err_0@ == e,
        },
{
    if args.minecraft {
        let v = vec![25565u16];
        proof {
            assert(v@.to_set() =~= set![minecraft_port()]);
        }
        return Ok(v);
    }
    match &args.ports {
        Some(ports_str) => parse_port_list(ports_str.as_str()),
        None => {
            let v = vec![
                21u16, 22, 25, 53, 80, 110, 143, 443, 3000, 3306, 5432, 6379, 8000, 8080, 8443,
                25565,
            ];
            proof {
                assert(v@ =~= default_ports());
            }
            Ok(v)
        },
    }
}

} // verus!
