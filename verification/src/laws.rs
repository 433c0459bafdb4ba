//! Properties of the library as a whole, stated over the specifications that
//! the functions' contracts use.
use vstd::prelude::*;

use crate::cli::{requested_ports, selected_format, OutputFormat};
use crate::output::{
    csv_header, csv_line, csv_lines, footer_layout, hundredths_text, open_results, paints, paints_each,
    quiet_lines, rule_text, shown_results, tenths_text, terminal_layout,
};
use crate::error::{error_message, PortPeekErrorView};
use crate::ports::{
    all_digits, digits_value, first_index, has_char, parse_port_spec, piece_ports, pieces_ports,
    port_list_ports, port_range, split_commas, unsigned_digits,
};
use crate::scanner::{
    failure_reason, is_bracket, spec_clean_target, strip_brackets_end, strip_brackets_start,
    outcome_latency, outcome_status, sorted_by_port, with_port, ConnectOutcome, PortStatus,
    ScanResult,
};
use crate::services::spec_service_hint;
use crate::style::{esc, escape_resets, no_escape, reset, sgr, style_code, TextStyle};
use crate::text::{decimal, digit_char, digit_value, pad_right, trim, two_digits};

verus! {

/// With service hints disabled, no port gets a hint.
pub proof fn law_no_hints_no_service(port: u16)
    ensures
        spec_service_hint(port, true) is None,
{
}

/// A scanned port has a latency exactly when it is open.
pub proof fn law_latency_only_when_open(outcome: ConnectOutcome)
    ensures
        outcome_latency(outcome) is Some <==> outcome_status(outcome) == PortStatus::Open,
{
}

/// Every result that an open-only report shows is open, and every open
/// result is shown, in the order of the scan.
pub proof fn law_open_only_shows_open(results: Seq<ScanResult>)
    ensures
        forall|i: int|
            0 <= i < shown_results(results, true).len() ==> (#[trigger] shown_results(
                results,
                true,
            )[i]).status == PortStatus::Open,
        forall|p: u16|
            #[trigger] with_port(shown_results(results, true), p) == with_port(
                open_results(results),
                p,
            ),
        shown_results(results, false) == results,
    decreases results.len(),
{
    if results.len() > 0 {
        law_open_only_shows_open(results.drop_last());
    }
}

/// The quiet output has one line per open port, and the open-only CSV
/// output has the same rows plus its header.
pub proof fn law_quiet_and_csv_agree(results: Seq<ScanResult>)
    ensures
        quiet_lines(results).len() == open_results(results).len(),
        csv_lines(results, true).len() == quiet_lines(results).len() + 1,
{
}

proof fn lemma_digit_round_trip(k: int)
    requires
        0 <= k < 10,
    ensures
        digit_value(digit_char(k)) == k,
{
}

proof fn lemma_decimal_digits(n: nat)
    ensures
        all_digits(decimal(n)),
        digits_value(decimal(n)) == n,
        decimal(n).len() > 0,
        decimal(n)[0] != '+',
    decreases n,
{
    lemma_digit_round_trip((n % 10) as int);
    if n < 10 {
        assert(decimal(n).drop_last() =~= Seq::<char>::empty());
        assert(n % 10 == n);
        assert(digits_value(decimal(n)) == digits_value(decimal(n).drop_last()) * 10
            + digit_value(decimal(n).last()) as nat);
    } else {
        lemma_decimal_digits(n / 10);
        let d = decimal(n);
        assert(d.drop_last() =~= decimal(n / 10));
        assert(d.last() == digit_char((n % 10) as int));
        assert(digits_value(d) == digits_value(d.drop_last()) * 10 + digit_value(d.last()) as nat);
        assert((n / 10) * 10 + n % 10 == n) by (nonlinear_arith);
        assert(d[0] == decimal(n / 10)[0]);
        assert forall|i: int| 0 <= i < d.len() implies 0 <= #[trigger] digit_value(d[i]) <= 9 by {
            if i < d.len() - 1 {
                assert(d[i] == decimal(n / 10)[i]);
            }
        }
    }
}

/// A port written in decimal reads back as the same port.
pub proof fn law_port_text_reads_back(port: u16)
    ensures
        parse_port_spec(decimal(port as nat)) == Some(port),
{
    lemma_decimal_digits(port as nat);
    assert(unsigned_digits(decimal(port as nat)) == decimal(port as nat));
}

proof fn lemma_with_port_nonempty(s: Seq<ScanResult>, k: int)
    requires
        0 <= k < s.len(),
    ensures
        with_port(s, s[k].port).len() > 0,
    decreases s.len(),
{
    if k < s.len() - 1 {
        assert(s.drop_last()[k] == s[k]);
        lemma_with_port_nonempty(s.drop_last(), k);
    }
}

proof fn lemma_with_port_member(s: Seq<ScanResult>, p: u16)
    requires
        with_port(s, p).len() > 0,
    ensures
        exists|k: int| 0 <= k < s.len() && s[k].port == p,
    decreases s.len(),
{
    if s.last().port != p {
        lemma_with_port_member(s.drop_last(), p);
        let k = choose|k: int| 0 <= k < s.drop_last().len() && s.drop_last()[k].port == p;
        assert(s[k] == s.drop_last()[k]);
    } else {
        assert(s[s.len() - 1].port == p);
    }
}

/// The order of results is fully determined: two sequences that are both
/// sorted by port and hold the same results for every port, in the same
/// order, are equal. In particular ordering already ordered results
/// changes nothing.
pub proof fn law_stable_order_is_unique(s: Seq<ScanResult>, t: Seq<ScanResult>)
    requires
        sorted_by_port(s),
        sorted_by_port(t),
        forall|p: u16| #[trigger] with_port(s, p) == with_port(t, p),
    ensures
        s == t,
    decreases s.len() + t.len(),
{
    if s.len() == 0 && t.len() == 0 {
        assert(s =~= t);
    } else if s.len() == 0 {
        lemma_with_port_nonempty(t, t.len() - 1);
        lemma_with_port_member(s, t.last().port);
    } else if t.len() == 0 {
        lemma_with_port_nonempty(s, s.len() - 1);
        lemma_with_port_member(t, s.last().port);
    } else {
        let ps = s.last().port;
        let pt = t.last().port;
        lemma_with_port_nonempty(s, s.len() - 1);
        lemma_with_port_nonempty(t, t.len() - 1);
        assert(with_port(t, ps) == with_port(s, ps));
        lemma_with_port_member(t, ps);
        lemma_with_port_member(s, pt);
        let kt = choose|k: int| 0 <= k < t.len() && t[k].port == ps;
        let ks = choose|k: int| 0 <= k < s.len() && s[k].port == pt;
        assert(t[kt].port <= pt);
        assert(s[ks].port <= ps);
        assert(ps == pt);
        let ws = with_port(s, ps);
        let wt = with_port(t, ps);
        assert(ws == with_port(s.drop_last(), ps).push(s.last()));
        assert(wt == with_port(t.drop_last(), ps).push(t.last()));
        assert(ws.last() == s.last());
        assert(wt.last() == t.last());
        assert(s.last() == t.last());
        assert forall|p: u16| #[trigger]
            with_port(s.drop_last(), p) == with_port(t.drop_last(), p) by {
            assert(with_port(s, p) == with_port(t, p));
            if p == ps {
                assert(with_port(s.drop_last(), p) == with_port(s, p).drop_last());
                assert(with_port(t.drop_last(), p) == with_port(t, p).drop_last());
            }
        }
        law_stable_order_is_unique(s.drop_last(), t.drop_last());
        assert(s =~= s.drop_last().push(s.last()));
        assert(t =~= t.drop_last().push(t.last()));
    }
}

/// The text of a line of spans, without any styling.
pub open spec fn plain_text(spans: Seq<(Seq<char>, TextStyle)>) -> Seq<char> {
    spans.map_values(|s: (Seq<char>, TextStyle)| s.0).flatten()
}

proof fn lemma_no_escape_in_pieces(pieces: Seq<Seq<char>>)
    requires
        no_escape(pieces.flatten()),
    ensures
        forall|i: int| 0 <= i < pieces.len() ==> no_escape(#[trigger] pieces[i]),
    decreases pieces.len(),
{
    if pieces.len() > 0 {
        let first = pieces.first();
        let rest = pieces.drop_first();
        assert(pieces.flatten() == first + rest.flatten());
        assert forall|j: int| 0 <= j < rest.flatten().len() implies rest.flatten()[j] != esc() by {
            assert(pieces.flatten()[first.len() + j] == rest.flatten()[j]);
        }
        lemma_no_escape_in_pieces(rest);
        assert forall|i: int| 0 <= i < pieces.len() implies no_escape(#[trigger] pieces[i]) by {
            if i == 0 {
                assert forall|j: int| 0 <= j < first.len() implies first[j] != esc() by {
                    assert(pieces.flatten()[j] == first[j]);
                }
            } else {
                assert(pieces[i] == rest[i - 1]);
            }
        }
    }
}

/// A painted line that holds no escape code is exactly the text of its
/// spans: when styling is off, the terminal table shows the layout's text.
pub proof fn law_unstyled_line_is_plain(line: Seq<char>, spans: Seq<(Seq<char>, TextStyle)>)
    requires
        paints(line, spans),
        no_escape(line),
    ensures
        line == plain_text(spans),
{
    let pieces = choose|pieces: Seq<Seq<char>>| #[trigger]
        paints_each(pieces, spans) && pieces.flatten() == line;
    lemma_no_escape_in_pieces(pieces);
    let texts = spans.map_values(|s: (Seq<char>, TextStyle)| s.0);
    assert forall|i: int| 0 <= i < pieces.len() implies #[trigger] pieces[i] == texts[i] by {
        let text = spans[i].0;
        let style = spans[i].1;
        let piece = pieces[i];
        assert(no_escape(piece));
        if style != TextStyle::Plain {
            let code = style_code(style);
            let e = escape_resets(text, code);
            if piece == sgr(code) + e + reset() {
                assert(piece[0] == esc());
            }
            if piece == sgr(code) + text + reset() {
                assert(piece[0] == esc());
            }
            if piece == e + reset() {
                assert(piece[e.len() as int] == esc());
            }
            if piece == text + reset() {
                assert(piece[text.len() as int] == esc());
            }
        }
    }
    assert(pieces =~= texts);
}

/// Whether the trimmed piece `t` of a port list names port `p`: a piece
/// without `-` that reads as `p`, or a range whose trimmed ends read as
/// ports `x` and `y` with `x <= p <= y`.
pub open spec fn piece_names(t: Seq<char>, p: u16) -> bool {
    if t.len() == 0 {
        false
    } else if has_char(t, '-') {
        let k = first_index(t, '-');
        match (parse_port_spec(trim(t.take(k))), parse_port_spec(trim(t.skip(k + 1)))) {
            (Some(x), Some(y)) => x <= p && p <= y,
            _ => false,
        }
    } else {
        parse_port_spec(t) == Some(p)
    }
}

/// Whether the trimmed piece `t` of a port list is rejected: a non-empty
/// piece without `-` that is no port number, or a range with an end that is
/// no port number or with its start above its end.
pub open spec fn piece_rejected(t: Seq<char>) -> bool {
    if t.len() == 0 {
        false
    } else if has_char(t, '-') {
        let k = first_index(t, '-');
        match (parse_port_spec(trim(t.take(k))), parse_port_spec(trim(t.skip(k + 1)))) {
            (Some(x), Some(y)) => x > y,
            _ => true,
        }
    } else {
        parse_port_spec(t) is None
    }
}

proof fn lemma_piece(t: Seq<char>)
    ensures
        piece_ports(t) is Err <==> piece_rejected(t),
        piece_ports(t) is Err ==> piece_ports(t)->Err_0 != PortPeekErrorView::NoPortsSpecified,
        piece_ports(t) is Ok ==> (forall|p: u16|
            piece_ports(t)->Ok_0.contains(p) <==> #[trigger] piece_names(t, p)),
        piece_ports(t) is Ok ==> (piece_ports(t)->Ok_0.is_empty() <==> t.len() == 0),
{
    if t.len() > 0 {
        if has_char(t, '-') {
            let k = first_index(t, '-');
            let a = parse_port_spec(trim(t.take(k)));
            let b = parse_port_spec(trim(t.skip(k + 1)));
            if a is Some && b is Some && a->0 <= b->0 {
                assert(port_range(a->0, b->0).contains(a->0));
            }
        } else {
            if parse_port_spec(t) is Some {
                assert(set![parse_port_spec(t)->0].contains(parse_port_spec(t)->0));
            }
        }
    } else {
        assert(Set::<u16>::empty().is_empty());
    }
}

/// Which ports a sequence of pieces names, and when and with which error it
/// is rejected: it is rejected exactly when some trimmed piece is, with the
/// error of the first such piece; otherwise it names exactly the ports that
/// some trimmed piece names, and none at all exactly when every piece is
/// blank.
pub proof fn law_pieces_ports(pieces: Seq<Seq<char>>)
    ensures
        pieces_ports(pieces) is Err <==> exists|i: int|
            0 <= i < pieces.len() && #[trigger] piece_rejected(trim(pieces[i])),
        pieces_ports(pieces) is Err ==> exists|i: int|
            0 <= i < pieces.len() && (forall|j: int|
                0 <= j < i ==> !#[trigger] piece_rejected(trim(pieces[j]))) && piece_ports(
                trim(pieces[i]),
            ) == pieces_ports(pieces),
        pieces_ports(pieces) is Err ==> pieces_ports(pieces)->Err_0
            != PortPeekErrorView::NoPortsSpecified,
        pieces_ports(pieces) is Ok ==> forall|p: u16|
            pieces_ports(pieces)->Ok_0.contains(p) <==> exists|i: int|
                0 <= i < pieces.len() && #[trigger] piece_names(trim(pieces[i]), p),
        pieces_ports(pieces) is Ok ==> (pieces_ports(pieces)->Ok_0.is_empty() <==> forall|i: int|
            0 <= i < pieces.len() ==> #[trigger] trim(pieces[i]).len() == 0),
    decreases pieces.len(),
{
    if pieces.len() > 0 {
        let q = pieces.drop_last();
        let last = trim(pieces.last());
        law_pieces_ports(q);
        lemma_piece(last);
        let n = q.len() as int;
        assert(pieces[n] == pieces.last());
        assert forall|i: int| 0 <= i < n implies pieces[i] == q[i] by {}
        if pieces_ports(q) is Err {
            let i0 = choose|i: int|
                0 <= i < q.len() && (forall|j: int|
                    0 <= j < i ==> !#[trigger] piece_rejected(trim(q[j]))) && piece_ports(
                    trim(q[i]),
                ) == pieces_ports(q);
            assert(pieces[i0] == q[i0]);
            assert forall|j: int| 0 <= j < i0 implies !#[trigger] piece_rejected(
                trim(pieces[j]),
            ) by {
                assert(pieces[j] == q[j]);
            }
            let i1 = choose|i: int| 0 <= i < q.len() && #[trigger] piece_rejected(trim(q[i]));
            assert(pieces[i1] == q[i1]);
            assert(piece_rejected(trim(pieces[i1])));
        } else {
            assert forall|i: int| 0 <= i < n implies !#[trigger] piece_rejected(
                trim(pieces[i]),
            ) by {
                assert(pieces[i] == q[i]);
                if piece_rejected(trim(pieces[i])) {
                    assert(piece_rejected(trim(q[i])));
                }
            }
            if piece_ports(last) is Err {
                assert(piece_rejected(trim(pieces[n])));
            } else {
                assert(!piece_rejected(trim(pieces[n])));
                assert(forall|i: int|
                    0 <= i < pieces.len() ==> !#[trigger] piece_rejected(trim(pieces[i])));
                let acc = pieces_ports(q)->Ok_0;
                let more = piece_ports(last)->Ok_0;
                assert forall|p: u16| #[trigger]
                    pieces_ports(pieces)->Ok_0.contains(p) <==> exists|i: int|
                        0 <= i < pieces.len() && #[trigger] piece_names(trim(pieces[i]), p) by {
                    if acc.contains(p) {
                        let i = choose|i: int|
                            0 <= i < q.len() && #[trigger] piece_names(trim(q[i]), p);
                        assert(pieces[i] == q[i]);
                        assert(piece_names(trim(pieces[i]), p));
                    }
                    if more.contains(p) {
                        assert(piece_names(trim(pieces[n]), p));
                    }
                    if exists|i: int|
                        0 <= i < pieces.len() && #[trigger] piece_names(trim(pieces[i]), p) {
                        let i = choose|i: int|
                            0 <= i < pieces.len() && #[trigger] piece_names(trim(pieces[i]), p);
                        if i < n {
                            assert(pieces[i] == q[i]);
                            assert(piece_names(trim(q[i]), p));
                        }
                    }
                }
                if acc.union(more).is_empty() {
                    assert forall|i: int| 0 <= i < pieces.len() implies #[trigger] trim(
                        pieces[i],
                    ).len() == 0 by {
                        if i < n {
                            assert(pieces[i] == q[i]);
                            if !acc.is_empty() {
                                let x = acc.choose();
                                assert(acc.union(more).contains(x));
                            }
                            assert(trim(q[i]).len() == 0);
                        } else {
                            if !more.is_empty() {
                                let x = more.choose();
                                assert(acc.union(more).contains(x));
                            }
                        }
                    }
                } else {
                    let x = acc.union(more).choose();
                    assert(acc.union(more).contains(x));
                    if acc.contains(x) {
                        assert(!acc.is_empty());
                        let i = choose|i: int| 0 <= i < q.len() && !(trim(q[i]).len() == 0);
                        assert(pieces[i] == q[i]);
                        assert(trim(pieces[i]).len() != 0);
                    } else {
                        assert(!more.is_empty());
                        assert(trim(pieces[n]).len() != 0);
                    }
                }
            }
        }
    }
}

/// The port-list law: with `pieces` the comma-separated pieces of `s`, the
/// list names exactly the ports that some trimmed piece names; it is
/// rejected exactly when some trimmed piece is rejected (with the error of
/// the first one) or every piece is blank (`NoPortsSpecified`, and only
/// then).
pub proof fn law_port_list(s: Seq<char>)
    ensures
        ({
            let pieces = split_commas(s);
            &&& port_list_ports(s) is Err <==> ((forall|i: int|
                0 <= i < pieces.len() ==> #[trigger] trim(pieces[i]).len() == 0) || exists|i: int|
                0 <= i < pieces.len() && #[trigger] piece_rejected(trim(pieces[i])))
            &&& port_list_ports(s) == Err::<Set<u16>, PortPeekErrorView>(
                PortPeekErrorView::NoPortsSpecified,
            ) <==> forall|i: int| 0 <= i < pieces.len() ==> #[trigger] trim(pieces[i]).len() == 0
            &&& (port_list_ports(s) is Err && port_list_ports(s)->Err_0
                != PortPeekErrorView::NoPortsSpecified) ==> exists|i: int|
                0 <= i < pieces.len() && (forall|j: int|
                    0 <= j < i ==> !#[trigger] piece_rejected(trim(pieces[j]))) && piece_ports(
                    trim(pieces[i]),
                ) == port_list_ports(s)
            &&& port_list_ports(s) is Ok ==> forall|p: u16|
                port_list_ports(s)->Ok_0.contains(p) <==> exists|i: int|
                    0 <= i < pieces.len() && #[trigger] piece_names(trim(pieces[i]), p)
        }),
{
    let pieces = split_commas(s);
    law_pieces_ports(pieces);
    if pieces_ports(pieces) is Err {
        if forall|i: int| 0 <= i < pieces.len() ==> #[trigger] trim(pieces[i]).len() == 0 {
            let i = choose|i: int| 0 <= i < pieces.len() && #[trigger] piece_rejected(
                trim(pieces[i]),
            );
            assert(trim(pieces[i]).len() == 0);
        }
    }
}


/// The output format: the JSON shorthand selects JSON whatever format is
/// chosen; without it a chosen format is the one selected, and with no
/// format chosen the terminal table is.
pub proof fn law_output_format(json: bool, output: Option<OutputFormat>)
    ensures
        json ==> selected_format(json, output) == OutputFormat::Json,
        !json && output is Some ==> selected_format(json, output) == output->0,
        !json && output is None ==> selected_format(json, output) == OutputFormat::Terminal,
{
}

/// The table of service hints: each well-known port and its service name.
pub proof fn law_service_table()
    ensures
        spec_service_hint(20, false) == Some("FTP Data"@),
        spec_service_hint(21, false) == Some("FTP"@),
        spec_service_hint(22, false) == Some("SSH"@),
        spec_service_hint(23, false) == Some("Telnet"@),
        spec_service_hint(25, false) == Some("SMTP"@),
        spec_service_hint(53, false) == Some("DNS"@),
        spec_service_hint(80, false) == Some("HTTP"@),
        spec_service_hint(110, false) == Some("POP3"@),
        spec_service_hint(123, false) == Some("NTP"@),
        spec_service_hint(143, false) == Some("IMAP"@),
        spec_service_hint(443, false) == Some("HTTPS"@),
        spec_service_hint(465, false) == Some("SMTPS"@),
        spec_service_hint(587, false) == Some("SMTP Submission"@),
        spec_service_hint(993, false) == Some("IMAPS"@),
        spec_service_hint(995, false) == Some("POP3S"@),
        spec_service_hint(1433, false) == Some("MSSQL"@),
        spec_service_hint(1521, false) == Some("Oracle DB"@),
        spec_service_hint(2375, false) == Some("Docker"@),
        spec_service_hint(3000, false) == Some("Dev Server"@),
        spec_service_hint(3306, false) == Some("MySQL"@),
        spec_service_hint(5000, false) == Some("Dev Server"@),
        spec_service_hint(5432, false) == Some("PostgreSQL"@),
        spec_service_hint(5672, false) == Some("RabbitMQ"@),
        spec_service_hint(6379, false) == Some("Redis"@),
        spec_service_hint(8000, false) == Some("Dev Server"@),
        spec_service_hint(8080, false) == Some("HTTP Proxy / Dev"@),
        spec_service_hint(8081, false) == Some("Dev Server"@),
        spec_service_hint(8443, false) == Some("HTTPS Alt"@),
        spec_service_hint(9000, false) == Some("Dev Server"@),
        spec_service_hint(9092, false) == Some("Kafka"@),
        spec_service_hint(9200, false) == Some("Elasticsearch"@),
        spec_service_hint(11211, false) == Some("Memcached"@),
        spec_service_hint(25565, false) == Some("Minecraft Java"@),
        spec_service_hint(27017, false) == Some("MongoDB"@),
{
}

/// Only the ports of the table have a hint.
pub proof fn law_service_hint_only_known(port: u16)
    ensures
        spec_service_hint(port, false) is Some ==> set![
            20u16, 21, 22, 23, 25, 53, 80, 110, 123, 143, 443, 465, 587, 993, 995, 1433, 1521,
            2375, 3000, 3306, 5000, 5432, 5672, 6379, 8000, 8080, 8081, 8443, 9000, 9092, 9200,
            11211, 25565, 27017,
        ].contains(port),
{
}

/// The duration of a scan reads back from its text: the digits before the
/// point are the whole seconds, the two digits after it the hundredths, so
/// that together they denote `h` hundredths of a second.
pub proof fn law_hundredths_text(h: u64)
    ensures
        ({
            let t = hundredths_text(h);
            let whole = t.take(t.len() - 3);
            let frac = t.skip(t.len() - 2);
            &&& t.len() >= 4
            &&& t[t.len() - 3] == '.'
            &&& all_digits(whole) && all_digits(frac)
            &&& whole.len() == 1 || whole[0] != '0'
            &&& digits_value(whole) == h / 100
            &&& digits_value(frac) == h % 100
            &&& digits_value(whole) * 100 + digits_value(frac) == h
        }),
{
    let w = decimal((h / 100) as nat);
    let c = (h % 100) as nat;
    let t = hundredths_text(h);
    lemma_decimal_digits((h / 100) as nat);
    lemma_decimal_leading((h / 100) as nat);
    assert(t.take(t.len() - 3) =~= w);
    assert(t.skip(t.len() - 2) =~= two_digits(c));
    lemma_two_digits(c);
}

/// The latency of an open port reads back from its text: the digits before
/// the point and the one after it denote `t` tenths of a millisecond.
pub proof fn law_tenths_text(t: u64)
    ensures
        ({
            let x = tenths_text(t);
            let whole = x.take(x.len() - 2);
            &&& x.len() >= 3
            &&& x[x.len() - 2] == '.'
            &&& all_digits(whole) && 0 <= digit_value(x.last()) <= 9
            &&& whole.len() == 1 || whole[0] != '0'
            &&& digits_value(whole) * 10 + digit_value(x.last()) == t
        }),
{
    let w = decimal((t / 10) as nat);
    let x = tenths_text(t);
    lemma_decimal_digits((t / 10) as nat);
    lemma_decimal_leading((t / 10) as nat);
    lemma_digit_round_trip((t % 10) as int);
    assert(x.take(x.len() - 2) =~= w);
}

proof fn lemma_two_digits(c: nat)
    requires
        c < 100,
    ensures
        all_digits(two_digits(c)),
        digits_value(two_digits(c)) == c,
{
    lemma_digit_round_trip((c / 10) as int);
    lemma_digit_round_trip((c % 10) as int);
    let d = two_digits(c);
    assert(d.drop_last() =~= seq![digit_char((c / 10) as int)]);
    assert(d.drop_last().drop_last() =~= Seq::<char>::empty());
    assert(digits_value(d.drop_last()) == digits_value(d.drop_last().drop_last()) * 10
        + digit_value(d.drop_last().last()) as nat);
}

proof fn lemma_decimal_leading(n: nat)
    ensures
        decimal(n).len() == 1 || decimal(n)[0] != '0',
        n >= 1 ==> decimal(n)[0] != '0',
    decreases n,
{
    if n >= 10 {
        lemma_decimal_leading(n / 10);
        lemma_decimal_digits(n / 10);
        assert(decimal(n)[0] == decimal(n / 10)[0]);
    }
}

/// The footer of the terminal table counts every scanned port and every
/// open one, whether or not only open ports are shown: the table ends with
/// the rule, `Scanned <n> ports in <seconds>s` with `n` the number of
/// results, the number of open ports (green when there is one) and a blank
/// line, and both settings of `open_only` end the same way.
pub proof fn law_terminal_footer(
    target: Seq<char>,
    ip: Seq<char>,
    results: Seq<ScanResult>,
    open_only: bool,
    elapsed_hundredths: u64,
)
    ensures
        ({
            let l = terminal_layout(target, ip, results, open_only, elapsed_hundredths);
            let m = terminal_layout(target, ip, results, !open_only, elapsed_hundredths);
            let open = results.filter(|r: ScanResult| r.status == PortStatus::Open).len();
            &&& l.len() == shown_results(results, open_only).len() + 10
            &&& l[l.len() - 3] == seq![
                ("Scanned "@ + decimal(results.len()) + " ports in "@ + hundredths_text(
                    elapsed_hundredths,
                ) + "s"@, TextStyle::Plain),
            ]
            &&& l[l.len() - 2] == seq![
                (decimal(open), if open > 0 {
                    TextStyle::BoldGreen
                } else {
                    TextStyle::Plain
                }),
                (" open ports"@, TextStyle::Plain),
            ]
            &&& l.skip(l.len() - 4) == m.skip(m.len() - 4)
        }),
{
    law_open_results_filter(results);
    let l = terminal_layout(target, ip, results, open_only, elapsed_hundredths);
    let m = terminal_layout(target, ip, results, !open_only, elapsed_hundredths);
    let f = footer_layout(results.len(), open_results(results).len(), elapsed_hundredths);
    assert(l.skip(l.len() - 4) =~= f);
    assert(m.skip(m.len() - 4) =~= f);
    assert(l[l.len() - 3] == f[1]);
    assert(l[l.len() - 2] == f[2]);
}

/// The open results are the results whose status is open, in the order of
/// the scan.
pub proof fn law_open_results_filter(results: Seq<ScanResult>)
    ensures
        open_results(results) == results.filter(|r: ScanResult| r.status == PortStatus::Open),
    decreases results.len(),
{
    reveal(Seq::filter);
    if results.len() > 0 {
        law_open_results_filter(results.drop_last());
    }
}


proof fn lemma_split_commas_nonempty(s: Seq<char>)
    ensures
        split_commas(s).len() >= 1,
    decreases s.len(),
{
    if s.len() > 0 {
        lemma_split_commas_nonempty(s.drop_last());
    }
}

proof fn lemma_split_commas_join(a: Seq<char>, b: Seq<char>)
    ensures
        split_commas(a + seq![','] + b) == split_commas(a) + split_commas(b),
    decreases b.len(),
{
    let s = a + seq![','] + b;
    if b.len() == 0 {
        assert(s.drop_last() =~= a);
        assert(split_commas(a).push(Seq::<char>::empty()) =~= split_commas(a) + split_commas(b));
    } else {
        let b1 = b.drop_last();
        lemma_split_commas_join(a, b1);
        lemma_split_commas_nonempty(b1);
        assert(s.drop_last() =~= a + seq![','] + b1);
        assert(s.last() == b.last());
        let r = split_commas(a) + split_commas(b1);
        if b.last() == ',' {
            assert(r.push(Seq::<char>::empty()) =~= split_commas(a) + split_commas(b1).push(
                Seq::<char>::empty(),
            ));
        } else {
            let q = split_commas(b1);
            assert(r.update(r.len() - 1, r.last().push(b.last())) =~= split_commas(a) + q.update(
                q.len() - 1,
                q.last().push(b.last()),
            ));
        }
    }
}

proof fn lemma_split_commas_single(s: Seq<char>)
    requires
        !has_char(s, ','),
    ensures
        split_commas(s) == seq![s],
    decreases s.len(),
{
    if s.len() > 0 {
        let t = s.drop_last();
        assert(!has_char(t, ',')) by {
            if has_char(t, ',') {
                let i = choose|i: int| 0 <= i < t.len() && t[i] == ',';
                assert(s[i] == ',');
            }
        }
        lemma_split_commas_single(t);
        assert(s[s.len() - 1] == s.last());
        assert(s.last() != ',');
        assert(t.push(s.last()) =~= s);
        assert(seq![t].update(0, t.push(s.last())) =~= seq![s]);
    } else {
        assert(s =~= Seq::<char>::empty());
    }
}

proof fn lemma_digits_comma_free(d: Seq<char>)
    requires
        all_digits(d),
    ensures
        !has_char(d, ','),
{
    if has_char(d, ',') {
        let i = choose|i: int| 0 <= i < d.len() && d[i] == ',';
        assert(0 <= digit_value(d[i]) <= 9);
    }
}

proof fn lemma_tenths_comma_free(t: u64)
    ensures
        !has_char(tenths_text(t), ','),
{
    let x = tenths_text(t);
    let w = decimal((t / 10) as nat);
    lemma_decimal_digits((t / 10) as nat);
    lemma_digit_round_trip((t % 10) as int);
    if has_char(x, ',') {
        let i = choose|i: int| 0 <= i < x.len() && x[i] == ',';
        if i < w.len() {
            assert(x[i] == w[i]);
            assert(0 <= digit_value(w[i]) <= 9);
        }
    }
}

/// The CSV row of a result reads back field by field: split at its commas
/// it gives the port in decimal, `tcp`, the status label (`OPEN`, `CLOSED`
/// or `TIMEOUT`), then the service and, last, the latency in milliseconds
/// with one decimal (empty when the port is not open). When the service
/// holds no comma, it is the fourth and last field but one.
#[verifier::rlimit(40)]
pub proof fn law_csv_row_fields(r: ScanResult)
    ensures
        ({
            let f = split_commas(csv_line(r));
            &&& f.len() >= 5
            &&& f[0] == decimal(r.port as nat)
            &&& f[1] == "tcp"@
            &&& f[2] == match r.status {
                PortStatus::Open => "OPEN"@,
                PortStatus::Closed => "CLOSED"@,
                PortStatus::Timeout => "TIMEOUT"@,
            }
            &&& f.last() == match r.latency_tenths_ms {
                Some(t) => tenths_text(t),
                None => Seq::<char>::empty(),
            }
            &&& (match r.service {
                Some(t) => !has_char(t@, ','),
                None => true,
            }) ==> f.len() == 5 && f[3] == match r.service {
                Some(t) => t@,
                None => Seq::<char>::empty(),
            }
        }),
{
    reveal_strlit(",tcp,");
    reveal_strlit(",");
    reveal_strlit("tcp");
    reveal_strlit("OPEN");
    reveal_strlit("CLOSED");
    reveal_strlit("TIMEOUT");
    let d = decimal(r.port as nat);
    let lab = match r.status {
        PortStatus::Open => "OPEN"@,
        PortStatus::Closed => "CLOSED"@,
        PortStatus::Timeout => "TIMEOUT"@,
    };
    let svc = match r.service {
        Some(t) => t@,
        None => Seq::<char>::empty(),
    };
    let lat = match r.latency_tenths_ms {
        Some(t) => tenths_text(t),
        None => Seq::<char>::empty(),
    };
    let tail3 = svc + seq![','] + lat;
    let tail2 = lab + seq![','] + tail3;
    let tail1 = "tcp"@ + seq![','] + tail2;
    assert(csv_line(r) =~= d + seq![','] + tail1);
    lemma_split_commas_join(d, tail1);
    lemma_split_commas_join("tcp"@, tail2);
    lemma_split_commas_join(lab, tail3);
    lemma_split_commas_join(svc, lat);
    lemma_decimal_digits(r.port as nat);
    lemma_digits_comma_free(d);
    lemma_split_commas_single(d);
    assert(!has_char("tcp"@, ','));
    lemma_split_commas_single("tcp"@);
    assert(!has_char(lab, ','));
    lemma_split_commas_single(lab);
    if r.latency_tenths_ms is Some {
        lemma_tenths_comma_free(r.latency_tenths_ms->0);
    } else {
        assert(!has_char(lat, ','));
    }
    lemma_split_commas_single(lat);
    lemma_split_commas_nonempty(svc);
    let f = split_commas(csv_line(r));
    assert(f =~= seq![d] + (seq!["tcp"@] + (seq![lab] + (split_commas(svc) + seq![lat]))));
    if svc.len() == 0 || r.service is Some && !has_char(svc, ',') {
        if svc.len() == 0 {
            assert(!has_char(svc, ','));
        }
        lemma_split_commas_single(svc);
    }
}

/// The CSV output is its header line followed by the row of each shown
/// result, in order: every result, or with `open_only` the open ones.
pub proof fn law_csv_lines(results: Seq<ScanResult>, open_only: bool)
    ensures
        ({
            let lines = csv_lines(results, open_only);
            let shown = if open_only {
                results.filter(|r: ScanResult| r.status == PortStatus::Open)
            } else {
                results
            };
            &&& csv_header() == "port,protocol,status,service,latency_ms"@
            &&& lines.len() == shown.len() + 1
            &&& lines[0] == "port,protocol,status,service,latency_ms"@
            &&& forall|i: int| 0 <= i < shown.len() ==> #[trigger] lines[i + 1] == csv_line(shown[i])
        }),
{
    law_open_results_filter(results);
}


/// The results a report shows: with `open_only` those whose status is
/// open, in the order of the scan; otherwise all of them.
pub proof fn law_shown_results(results: Seq<ScanResult>, open_only: bool)
    ensures
        shown_results(results, open_only) == if open_only {
            results.filter(|r: ScanResult| r.status == PortStatus::Open)
        } else {
            results
        },
{
    law_open_results_filter(results);
}

/// The quiet output lists `<port>/tcp` for each open port, in the order of
/// the scan, and nothing else.
pub proof fn law_quiet_lines(results: Seq<ScanResult>)
    ensures
        quiet_lines(results) == results.filter(|r: ScanResult| r.status == PortStatus::Open).map_values(
            |r: ScanResult| decimal(r.port as nat) + "/tcp"@,
        ),
{
    law_open_results_filter(results);
    let a = quiet_lines(results);
    let b = results.filter(|r: ScanResult| r.status == PortStatus::Open).map_values(
        |r: ScanResult| decimal(r.port as nat) + "/tcp"@,
    );
    assert(a =~= b);
}

/// How a connection attempt classifies a port: an established connection
/// makes it open with the connection's latency; a failed attempt makes it
/// timed out when the error was a time-out and closed otherwise; a passed
/// deadline makes it timed out. Only an open port has a latency.
pub proof fn law_outcome_classification(outcome: ConnectOutcome)
    ensures
        outcome_status(outcome) == match outcome {
            ConnectOutcome::Connected { .. } => PortStatus::Open,
            ConnectOutcome::Failed { timed_out: true } => PortStatus::Timeout,
            ConnectOutcome::Failed { timed_out: false } => PortStatus::Closed,
            ConnectOutcome::DeadlineExpired => PortStatus::Timeout,
        },
        outcome_latency(outcome) == match outcome {
            ConnectOutcome::Connected { latency_tenths_ms } => Some(latency_tenths_ms),
            _ => None::<u64>,
        },
{
}

/// The ports a run scans: the Minecraft preset scans port 25565 alone,
/// whatever port list is given; otherwise a port list decides; without one
/// the common ports are scanned.
pub proof fn law_requested_ports(minecraft: bool, ports: Option<Seq<char>>)
    ensures
        minecraft ==> requested_ports(minecraft, ports) == Ok::<Set<u16>, PortPeekErrorView>(
            set![25565u16],
        ),
        !minecraft && ports is Some ==> requested_ports(minecraft, ports) == port_list_ports(
            ports->0,
        ),
        !minecraft && ports is None ==> requested_ports(minecraft, ports) == Ok::<
            Set<u16>,
            PortPeekErrorView,
        >(
            set![
                21u16, 22, 25, 53, 80, 110, 143, 443, 3000, 3306, 5432, 6379, 8000, 8080, 8443,
                25565,
            ],
        ),
{
    if !minecraft && ports is None {
        let d = seq![
            21u16, 22, 25, 53, 80, 110, 143, 443, 3000, 3306, 5432, 6379, 8000, 8080, 8443, 25565,
        ];
        let e = set![
            21u16, 22, 25, 53, 80, 110, 143, 443, 3000, 3306, 5432, 6379, 8000, 8080, 8443, 25565,
        ];
        assert forall|p: u16| d.to_set().contains(p) <==> e.contains(p) by {
            if e.contains(p) {
                if p == 21 { assert(d[0] == p); }
                if p == 22 { assert(d[1] == p); }
                if p == 25 { assert(d[2] == p); }
                if p == 53 { assert(d[3] == p); }
                if p == 80 { assert(d[4] == p); }
                if p == 110 { assert(d[5] == p); }
                if p == 143 { assert(d[6] == p); }
                if p == 443 { assert(d[7] == p); }
                if p == 3000 { assert(d[8] == p); }
                if p == 3306 { assert(d[9] == p); }
                if p == 5432 { assert(d[10] == p); }
                if p == 6379 { assert(d[11] == p); }
                if p == 8000 { assert(d[12] == p); }
                if p == 8080 { assert(d[13] == p); }
                if p == 8443 { assert(d[14] == p); }
                if p == 25565 { assert(d[15] == p); }
            }
        }
        assert(d.to_set() =~= e);
    }
}

/// The message of each error.
pub proof fn law_error_messages(e: PortPeekErrorView)
    ensures
        error_message(e) == match e {
            PortPeekErrorView::InvalidPortRange { start, end } => "Invalid port range: "@
                + decimal(start as nat) + "-"@ + decimal(end as nat) + " (start must be <= end)"@,
            PortPeekErrorView::InvalidPortNumber(s) => "Invalid port number: '"@ + s + "'"@,
            PortPeekErrorView::NoPortsSpecified => "No valid ports specified"@,
            PortPeekErrorView::DnsResolutionFailed { target, reason } =>
                "Failed to resolve target '"@ + target + "': "@ + reason,
            PortPeekErrorView::InvalidConcurrency(c) => "Invalid concurrency value: "@ + decimal(
                c as nat,
            ) + " (must be greater than 0)"@,
            PortPeekErrorView::InvalidTimeout(t) => "Invalid timeout value: "@ + decimal(t as nat)
                + " (must be greater than 0)"@,
        },
{
}

/// A number written in decimal reads back as the number, with a digit
/// first that is not zero unless the number is.
pub proof fn law_decimal_reads_back(n: nat)
    ensures
        decimal(n).len() > 0,
        all_digits(decimal(n)),
        digits_value(decimal(n)) == n,
        n >= 1 ==> decimal(n)[0] != '0',
        n == 0 ==> decimal(n) == seq!['0'],
{
    lemma_decimal_digits(n);
    lemma_decimal_leading(n);
}

/// Padding to a width keeps the text and appends spaces up to the width;
/// text that is already as wide is left alone.
pub proof fn law_pad_right(text: Seq<char>, width: nat)
    ensures
        pad_right(text, width).len() == if text.len() >= width {
            text.len()
        } else {
            width
        },
        pad_right(text, width).take(text.len() as int) == text,
        forall|i: int|
            text.len() <= i < pad_right(text, width).len() ==> #[trigger] pad_right(text, width)[i]
                == ' ',
{
    assert(pad_right(text, width).take(text.len() as int) =~= text);
}

/// The spans of the table row of one result: the port as `<port>/tcp` in a
/// column of 12 and a space; the status label in a column of 10, bold green
/// when open, red when closed and yellow when timed out; then a space, the
/// service (`-` when there is none) in a column of 24, a space and the
/// latency in milliseconds (`-` when there is none) in a column of 10.
pub open spec fn table_row_spans(r: ScanResult) -> Seq<(Seq<char>, TextStyle)> {
    seq![
        (pad_right(decimal(r.port as nat) + "/tcp"@, 12) + " "@, TextStyle::Plain),
        match r.status {
            PortStatus::Open => (pad_right("OPEN"@, 10), TextStyle::BoldGreen),
            PortStatus::Closed => (pad_right("CLOSED"@, 10), TextStyle::Red),
            PortStatus::Timeout => (pad_right("TIMEOUT"@, 10), TextStyle::Yellow),
        },
        (" "@ + pad_right(
            match r.service {
                Some(t) => t@,
                None => "-"@,
            },
            24,
        ) + " "@ + pad_right(
            match r.latency_tenths_ms {
                Some(t) => tenths_text(t) + "ms"@,
                None => "-"@,
            },
            10,
        ), TextStyle::Plain),
    ]
}

/// The terminal table begins with a blank line, the title, the target and
/// its address, a blank line, the column headings and a rule of 58 dashes,
/// and then has one row per shown result, in order.
pub proof fn law_terminal_rows(
    target: Seq<char>,
    ip: Seq<char>,
    results: Seq<ScanResult>,
    open_only: bool,
    elapsed_hundredths: u64,
)
    ensures
        ({
            let l = terminal_layout(target, ip, results, open_only, elapsed_hundredths);
            let shown = if open_only {
                results.filter(|r: ScanResult| r.status == PortStatus::Open)
            } else {
                results
            };
            &&& l.take(6) == seq![
                seq![],
                seq![("PortPeek"@, TextStyle::BoldCyan)],
                seq![
                    ("Target: "@, TextStyle::Plain),
                    (target, TextStyle::Bold),
                    (" ("@, TextStyle::Plain),
                    (ip, TextStyle::Dimmed),
                    (")"@, TextStyle::Plain),
                ],
                seq![],
                seq![
                    (pad_right("PORT"@, 12), TextStyle::Bold),
                    (" "@, TextStyle::Plain),
                    (pad_right("STATUS"@, 10), TextStyle::Bold),
                    (" "@, TextStyle::Plain),
                    (pad_right("SERVICE"@, 24), TextStyle::Bold),
                    (" "@, TextStyle::Plain),
                    (pad_right("LATENCY"@, 10), TextStyle::Bold),
                ],
                seq![(Seq::new(58, |i: int| '-'), TextStyle::Dimmed)],
            ]
            &&& l[l.len() - 4] == seq![(Seq::new(58, |i: int| '-'), TextStyle::Dimmed)]
            &&& l[l.len() - 1] == Seq::<(Seq<char>, TextStyle)>::empty()
            &&& forall|i: int| 0 <= i < shown.len() ==> #[trigger] l[6 + i] == table_row_spans(shown[i])
        }),
{
    law_shown_results(results, open_only);
    let l = terminal_layout(target, ip, results, open_only, elapsed_hundredths);
    assert(rule_text() =~= Seq::new(58, |i: int| '-'));
    assert(l.take(6) =~= seq![
        seq![],
        seq![("PortPeek"@, TextStyle::BoldCyan)],
        seq![
            ("Target: "@, TextStyle::Plain),
            (target, TextStyle::Bold),
            (" ("@, TextStyle::Plain),
            (ip, TextStyle::Dimmed),
            (")"@, TextStyle::Plain),
        ],
        seq![],
        seq![
            (pad_right("PORT"@, 12), TextStyle::Bold),
            (" "@, TextStyle::Plain),
            (pad_right("STATUS"@, 10), TextStyle::Bold),
            (" "@, TextStyle::Plain),
            (pad_right("SERVICE"@, 24), TextStyle::Bold),
            (" "@, TextStyle::Plain),
            (pad_right("LATENCY"@, 10), TextStyle::Bold),
        ],
        seq![(Seq::new(58, |i: int| '-'), TextStyle::Dimmed)],
    ]);
}


proof fn lemma_strip_start(s: Seq<char>) -> (k: int)
    ensures
        0 <= k <= s.len(),
        strip_brackets_start(s) == s.skip(k),
        forall|i: int| 0 <= i < k ==> is_bracket(#[trigger] s[i]),
        k < s.len() ==> !is_bracket(s[k]),
    decreases s.len(),
{
    if s.len() > 0 && is_bracket(s[0]) {
        let t = s.drop_first();
        let k1 = lemma_strip_start(t);
        assert(t.skip(k1) =~= s.skip(k1 + 1));
        assert forall|i: int| 0 <= i < k1 + 1 implies is_bracket(#[trigger] s[i]) by {
            if i > 0 {
                assert(s[i] == t[i - 1]);
            }
        }
        if k1 + 1 < s.len() {
            assert(s[k1 + 1] == t[k1]);
        }
        k1 + 1
    } else {
        assert(s.skip(0) =~= s);
        0
    }
}

proof fn lemma_strip_end(s: Seq<char>) -> (k: int)
    ensures
        0 <= k <= s.len(),
        strip_brackets_end(s) == s.take(k),
        forall|i: int| k <= i < s.len() ==> is_bracket(#[trigger] s[i]),
        k > 0 ==> !is_bracket(s[k - 1]),
    decreases s.len(),
{
    if s.len() > 0 && is_bracket(s.last()) {
        let t = s.drop_last();
        let k1 = lemma_strip_end(t);
        assert(t.take(k1) =~= s.take(k1));
        assert forall|i: int| k1 <= i < s.len() implies is_bracket(#[trigger] s[i]) by {
            if i < s.len() - 1 {
                assert(s[i] == t[i]);
            }
        }
        if k1 > 0 {
            assert(s[k1 - 1] == t[k1 - 1]);
        }
        k1
    } else {
        assert(s.take(s.len() as int) =~= s);
        s.len() as int
    }
}

/// Cleaning a target removes the square brackets around it and nothing
/// else: the result is a stretch of the target with only `[` and `]`
/// before and after it, and it neither starts nor ends with one.
pub proof fn law_clean_target(target: Seq<char>)
    ensures
        ({
            let c = spec_clean_target(target);
            &&& exists|a: int, b: int|
                0 <= a <= b <= target.len() && c == #[trigger] target.subrange(a, b) && (forall|
                    i: int,
                | 0 <= i < a ==> target[i] == '[' || target[i] == ']') && (forall|i: int|
                    b <= i < target.len() ==> target[i] == '[' || target[i] == ']')
            &&& c.len() > 0 ==> c[0] != '[' && c[0] != ']' && c.last() != '[' && c.last() != ']'
        }),
{
    let a = lemma_strip_start(target);
    let t = target.skip(a);
    let k = lemma_strip_end(t);
    let b = a + k;
    let c = spec_clean_target(target);
    assert(c =~= target.subrange(a, b));
    assert forall|i: int| 0 <= i < a implies target[i] == '[' || target[i] == ']' by {
        assert(is_bracket(target[i]));
    }
    assert forall|i: int| b <= i < target.len() implies target[i] == '[' || target[i] == ']' by {
        assert(target[i] == t[i - a]);
        assert(is_bracket(t[i - a]));
    }
    if c.len() > 0 {
        assert(c[0] == t[0]);
        assert(t[0] == target[a]);
        assert(c.last() == t[k - 1]);
    }
}

/// A failed resolution gives the lookup's own reason, or, when the lookup
/// found no address, says so.
pub proof fn law_failure_reason(lookup_error: Option<Seq<char>>)
    ensures
        failure_reason(lookup_error) == match lookup_error {
            Some(reason) => reason,
            None => "No IP addresses returned"@,
        },
{
}


/// What a port number is: an optional `+` sign, then at least one decimal
/// digit, denoting at most 65535; leading zeros are allowed. A port written
/// in decimal, with or without a `+` in front, reads back as the port.
pub proof fn law_port_number(t: Seq<char>, port: u16)
    ensures
        ({
            let d = if t.len() > 0 && t[0] == '+' {
                t.skip(1)
            } else {
                t
            };
            &&& parse_port_spec(t) is Some <==> (d.len() > 0 && all_digits(d) && digits_value(d)
                <= 65535)
            &&& parse_port_spec(t) is Some ==> parse_port_spec(t)->0 == digits_value(d)
        }),
        parse_port_spec(decimal(port as nat)) == Some(port),
        parse_port_spec(seq!['+'] + decimal(port as nat)) == Some(port),
        parse_port_spec(seq!['0'] + decimal(port as nat)) == Some(port),
{
    if t.len() > 0 && t[0] == '+' {
        assert(t.skip(1) =~= t.drop_first());
    }
    law_port_text_reads_back(port);
    let d = decimal(port as nat);
    lemma_decimal_digits(port as nat);
    let p = seq!['+'] + d;
    assert(p.drop_first() =~= d);
    let z = seq!['0'] + d;
    assert(z[0] != '+');
    assert forall|i: int| 0 <= i < z.len() implies 0 <= #[trigger] digit_value(z[i]) <= 9 by {
        if i > 0 {
            assert(z[i] == d[i - 1]);
        }
    }
    lemma_digits_prepend_zero(d);
}

proof fn lemma_digits_prepend_zero(d: Seq<char>)
    ensures
        digits_value(seq!['0'] + d) == digits_value(d),
    decreases d.len(),
{
    if d.len() == 0 {
        let z = seq!['0'];
        assert(z.drop_last() =~= Seq::<char>::empty());
        assert(z.last() == '0');
        assert(seq!['0'] + d =~= z);
        assert(digits_value(z) == digits_value(z.drop_last()) * 10 + digit_value(z.last()) as nat);
    } else {
        let z = seq!['0'] + d;
        assert(z.drop_last() =~= seq!['0'] + d.drop_last());
        assert(z.last() == d.last());
        lemma_digits_prepend_zero(d.drop_last());
        assert(digits_value(z) == digits_value(z.drop_last()) * 10 + digit_value(z.last()) as nat);
    }
}

} // verus!
