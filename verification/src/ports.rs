//! The grammar of port lists: comma-separated pieces, each a port number or
//! an inclusive range `start-end`, with white space allowed around pieces
//! and around range ends.
use std::collections::BTreeSet;
use vstd::prelude::*;

use crate::error::{PortPeekError, PortPeekErrorView};
use crate::text::{digit_of, digit_value, string_of, trim, trim_end, trim_start, white_space};

verus! {

/// Whether every character of `d` is a decimal digit.
pub open spec fn all_digits(d: Seq<char>) -> bool {
    forall|i: int| 0 <= i < d.len() ==> 0 <= #[trigger] digit_value(d[i]) <= 9
}

/// The number that the decimal digits `d` denote.
pub open spec fn digits_value(d: Seq<char>) -> nat
    decreases d.len(),
{
    if d.len() == 0 {
        0
    } else {
        digits_value(d.drop_last()) * 10 + digit_value(d.last()) as nat
    }
}

/// The digits of a port number: `t` without one leading `+` sign.
pub open spec fn unsigned_digits(t: Seq<char>) -> Seq<char> {
    if t.len() > 0 && t[0] == '+' {
        t.drop_first()
    } else {
        t
    }
}

/// The port number that `t` denotes: an optional `+` sign followed by at
/// least one decimal digit, with a value of at most 65535.
pub open spec fn parse_port_spec(t: Seq<char>) -> Option<u16> {
    let d = unsigned_digits(t);
    if d.len() > 0 && all_digits(d) && digits_value(d) <= 65535 {
        Some(digits_value(d) as u16)
    } else {
        None
    }
}

/// Whether `c` occurs at `i` in `t` and nowhere before it.
pub open spec fn first_at(t: Seq<char>, c: char, i: int) -> bool {
    &&& 0 <= i < t.len()
    &&& t[i] == c
    &&& forall|j: int| 0 <= j < i ==> t[j] != c
}

/// Whether `c` occurs in `t`.
pub open spec fn has_char(t: Seq<char>, c: char) -> bool {
    exists|i: int| 0 <= i < t.len() && t[i] == c
}

/// The position of the first `c` in `t` (meaningful when `has_char(t, c)`).
pub open spec fn first_index(t: Seq<char>, c: char) -> int {
    choose|i: int| first_at(t, c, i)
}

/// The ports that a range from `start` to `end` covers, both included.
pub open spec fn port_range(start: u16, end: u16) -> Set<u16> {
    Set::new(|p: u16| start <= p && p <= end)
}

/// The ports that one trimmed piece `t` of a port list names, or the error
/// it is rejected with. An empty piece names no port. A piece holding `-`
/// is a range split at its first `-`; each end may carry white space, and an
/// end that is no port number is reported as written, before trimming.
pub open spec fn piece_ports(t: Seq<char>) -> Result<Set<u16>, PortPeekErrorView> {
    if t.len() == 0 {
        Ok(Set::empty())
    } else if has_char(t, '-') {
        let k = first_index(t, '-');
        let start_text = t.take(k);
        let end_text = t.skip(k + 1);
        match parse_port_spec(trim(start_text)) {
            None => Err(PortPeekErrorView::InvalidPortNumber(start_text)),
            Some(start) => match parse_port_spec(trim(end_text)) {
                None => Err(PortPeekErrorView::InvalidPortNumber(end_text)),
                Some(end) => if start > end {
                    Err(PortPeekErrorView::InvalidPortRange { start, end })
                } else {
                    Ok(port_range(start, end))
                },
            },
        }
    } else {
        match parse_port_spec(t) {
            None => Err(PortPeekErrorView::InvalidPortNumber(t)),
            Some(p) => Ok(set![p]),
        }
    }
}

/// `s` cut at every comma, as `str::split(',')` cuts it: one more piece than
/// there are commas, empty pieces included.
pub open spec fn split_commas(s: Seq<char>) -> Seq<Seq<char>>
    decreases s.len(),
{
    if s.len() == 0 {
        seq![Seq::<char>::empty()]
    } else {
        let r = split_commas(s.drop_last());
        if s.last() == ',' {
            r.push(Seq::<char>::empty())
        } else {
            r.update(r.len() - 1, r.last().push(s.last()))
        }
    }
}

/// The ports that the pieces name together, or the error of the first
/// piece that is rejected. Each piece is trimmed before it is read.
pub open spec fn pieces_ports(pieces: Seq<Seq<char>>) -> Result<Set<u16>, PortPeekErrorView>
    decreases pieces.len(),
{
    if pieces.len() == 0 {
        Ok(Set::empty())
    } else {
        match pieces_ports(pieces.drop_last()) {
            Err(e) => Err(e),
            Ok(acc) => match piece_ports(trim(pieces.last())) {
                Err(e) => Err(e),
                Ok(more) => Ok(acc.union(more)),
            },
        }
    }
}

/// The ports that the port list `s` names, or the error it is rejected with.
pub open spec fn port_list_ports(s: Seq<char>) -> Result<Set<u16>, PortPeekErrorView> {
    match pieces_ports(split_commas(s)) {
        Err(e) => Err(e),
        Ok(ports) => if ports.is_empty() {
            Err(PortPeekErrorView::NoPortsSpecified)
        } else {
            Ok(ports)
        },
    }
}

/// Whether `s` is strictly increasing, so that no port appears twice.
pub open spec fn ascending(s: Seq<u16>) -> bool {
    forall|i: int, j: int| 0 <= i < j < s.len() ==> s[i] < s[j]
}

proof fn lemma_digits_prefix(d: Seq<char>, k: int)
    requires
        all_digits(d),
        0 <= k <= d.len(),
    ensures
        digits_value(d.take(k)) <= digits_value(d),
    decreases d.len(),
{
    if k < d.len() {
        assert(d.drop_last().take(k) =~= d.take(k));
        assert(all_digits(d.drop_last()));
        lemma_digits_prefix(d.drop_last(), k);
    } else {
        assert(d.take(k) =~= d);
    }
}

/// The bounds of `cs[lo..hi]` with its leading and trailing white space
/// removed.
pub fn trim_range(cs: &Vec<char>, lo: usize, hi: usize) -> (r: (usize, usize))
    requires
        lo <= hi <= cs.len(),
    ensures
        lo <= r.0 <= r.1 <= hi,
        cs@.subrange(r.0 as int, r.1 as int) == trim(cs@.subrange(lo as int, hi as int)),
{
    let mut a = lo;
    while a < hi && white_space(cs[a])
        invariant
            lo <= a <= hi <= cs.len(),
            trim_start(cs@.subrange(lo as int, hi as int)) == trim_start(
                cs@.subrange(a as int, hi as int),
            ),
        decreases hi - a,
    {
        proof {
            let t = cs@.subrange(a as int, hi as int);
            assert(t.drop_first() =~= cs@.subrange(a + 1, hi as int));
        }
        a = a + 1;
    }
    proof {
        let t = cs@.subrange(a as int, hi as int);
        if t.len() > 0 {
            assert(t[0] == cs@[a as int]);
        }
        assert(trim_start(t) == t);
    }
    let mut b = hi;
    while b > a && white_space(cs[b - 1])
        invariant
            lo <= a <= b <= hi <= cs.len(),
            trim_start(cs@.subrange(lo as int, hi as int)) == cs@.subrange(a as int, hi as int),
            trim(cs@.subrange(lo as int, hi as int)) == trim_end(
                cs@.subrange(a as int, b as int),
            ),
        decreases b - a,
    {
        proof {
            let t = cs@.subrange(a as int, b as int);
            assert(t.drop_last() =~= cs@.subrange(a as int, b - 1));
        }
        b = b - 1;
    }
    proof {
        let t = cs@.subrange(a as int, b as int);
        if t.len() > 0 {
            assert(t.last() == cs@[b - 1]);
        }
        assert(trim_end(t) == t);
    }
    (a, b)
}

/// The position of the first `c` in `cs[lo..hi]`, if there is one.
pub fn find_char(cs: &Vec<char>, lo: usize, hi: usize, c: char) -> (r: Option<usize>)
    requires
        lo <= hi <= cs.len(),
    ensures
        match r {
            Some(k) => lo <= k < hi && first_at(
                cs@.subrange(lo as int, hi as int),
                c,
                k - lo,
            ),
            None => !has_char(cs@.subrange(lo as int, hi as int), c),
        },
{
    let mut k = lo;
    while k < hi
        invariant
            lo <= k <= hi <= cs.len(),
            forall|j: int| lo <= j < k ==> cs@[j] != c,
        decreases hi - k,
    {
        if cs[k] == c {
            proof {
                let t = cs@.subrange(lo as int, hi as int);
                assert forall|j: int| 0 <= j < k - lo implies t[j] != c by {
                    assert(t[j] == cs@[lo + j]);
                }
            }
            return Some(k);
        }
        k = k + 1;
    }
    proof {
        let t = cs@.subrange(lo as int, hi as int);
        assert forall|j: int| 0 <= j < t.len() implies t[j] != c by {
            assert(t[j] == cs@[lo + j]);
        }
    }
    None
}

/// The port number that `cs[lo..hi]` denotes, if it denotes one.
pub fn parse_port(cs: &Vec<char>, lo: usize, hi: usize) -> (r: Option<u16>)
    requires
        lo <= hi <= cs.len(),
    ensures
        r == parse_port_spec(cs@.subrange(lo as int, hi as int)),
{
    let ghost t = cs@.subrange(lo as int, hi as int);
    let mut start = lo;
    if lo < hi && cs[lo] == '+' {
        start = lo + 1;
    }
    proof {
        assert(unsigned_digits(t) =~= cs@.subrange(start as int, hi as int));
    }
    if start == hi {
        return None;
    }
    let ghost d = cs@.subrange(start as int, hi as int);
    let mut acc: u32 = 0;
    let mut i = start;
    while i < hi
        invariant
            lo <= start <= i <= hi <= cs.len(),
            d == cs@.subrange(start as int, hi as int),
            t == cs@.subrange(lo as int, hi as int),
            unsigned_digits(t) == d,
            d.len() > 0,
            acc <= 65535,
            all_digits(d.take(i - start)),
            acc == digits_value(d.take(i - start)),
        decreases hi - i,
    {
        let dv = digit_of(cs[i]);
        match dv {
            None => {
                proof {
                    assert(d[i - start] == cs@[i as int]);
                    assert(digit_value(d[i - start]) == -1);
                    assert(!all_digits(d));
                }
                return None;
            },
            Some(v) => {
                proof {
                    let p = d.take(i - start + 1);
                    assert(p.drop_last() =~= d.take(i - start));
                    assert(p.last() == cs@[i as int]);
                    assert(all_digits(p)) by {
                        assert forall|j: int| 0 <= j < p.len() implies 0 <= #[trigger] digit_value(
                            p[j],
                        ) <= 9 by {
                            if j < p.len() - 1 {
                                assert(p[j] == d.take(i - start)[j]);
                            }
                        }
                    }
                }
                acc = acc * 10 + v;
                if acc > 65535 {
                    proof {
                        let p = d.take(i - start + 1);
                        if all_digits(d) {
                            lemma_digits_prefix(d, i - start + 1);
                        }
                    }
                    return None;
                }
            },
        }
        i = i + 1;
    }
    proof {
        assert(d.take(hi - start) =~= d);
    }
    Some(acc as u16)
}

/// Adds the ports of the trimmed piece `cs[lo..hi]` to `set`, or returns
/// the error the piece is rejected with.
pub fn add_piece(cs: &Vec<char>, lo: usize, hi: usize, set: &mut BTreeSet<u16>) -> (r: Result<
    (),
    PortPeekError,
>)
    requires
        lo <= hi <= cs.len(),
    ensures
        match piece_ports(trim(cs@.subrange(lo as int, hi as int))) {
            Ok(more) => r is Ok && final(set)@ == old(set)@.union(more),
            Err(e) => r is Err && r->Err_0@ == e,
        },
{
    let (a, b) = trim_range(cs, lo, hi);
    let ghost t = cs@.subrange(a as int, b as int);
    if a == b {
        proof {
            assert(old(set)@.union(Set::empty()) =~= old(set)@);
        }
        return Ok(());
    }
    match find_char(cs, a, b, '-') {
        Some(k) => {
            proof {
                let i0 = first_index(t, '-');
                assert(first_at(t, '-', k - a));
                assert(first_at(t, '-', i0));
                if i0 < k - a {
                    assert(t[i0] != '-');
                }
                if i0 > k - a {
                    assert(t[k - a] != '-');
                }
                assert(i0 == k - a);
                assert(t.take(k - a) =~= cs@.subrange(a as int, k as int));
                assert(t.skip(k - a + 1) =~= cs@.subrange(k + 1, b as int));
            }
            let (sa, sb) = trim_range(cs, a, k);
            let start = match parse_port(cs, sa, sb) {
                Some(v) => v,
                None => {
                    return Err(PortPeekError::InvalidPortNumber(string_of(cs, a, k)));
                },
            };
            let (ea, eb) = trim_range(cs, k + 1, b);
            let end = match parse_port(cs, ea, eb) {
                Some(v) => v,
                None => {
                    return Err(PortPeekError::InvalidPortNumber(string_of(cs, k + 1, b)));
                },
            };
            if start > end {
                return Err(PortPeekError::InvalidPortRange { start, end });
            }
            let ghost before = set@;
            let mut q: u32 = start as u32;
            while q <= end as u32
                invariant
                    start <= q <= end as u32 + 1,
                    set@ == before.union(Set::new(|p: u16| start <= p && (p as u32) < q)),
                decreases end as u32 + 1 - q,
            {
                set.insert(q as u16);
                proof {
                    assert(set@ =~= before.union(
                        Set::new(|p: u16| start <= p && (p as u32) < q + 1),
                    ));
                }
                q = q + 1;
            }
            proof {
                assert(set@ =~= before.union(port_range(start, end)));
            }
            Ok(())
        },
        None => {
            let p = match parse_port(cs, a, b) {
                Some(v) => v,
                None => {
                    return Err(PortPeekError::InvalidPortNumber(string_of(cs, a, b)));
                },
            };
            set.insert(p);
            proof {
                assert(set@ =~= old(set)@.union(set![p]));
            }
            Ok(())
        },
    }
}

} // verus!
