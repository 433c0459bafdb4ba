//! What each output format shows of a scan: the terminal table, the JSON
//! report, CSV rows and the quiet list of open ports.
use vstd::prelude::*;
use vstd::string::StringExecFns;

use crate::cli::OutputFormat;
use crate::scanner::{PortStatus, ScanResult};
use crate::style::{paint, painted, TextStyle};
use crate::text::{
    decimal, digit, digit_char, pad_right, pad_to, push_char, push_decimal, push_repeated,
    push_str, repeat_char, two_digits,
};

verus! {

/// The label of a port status.
pub open spec fn status_text(s: PortStatus) -> Seq<char> {
    match s {
        PortStatus::Open => "OPEN"@,
        PortStatus::Closed => "CLOSED"@,
        PortStatus::Timeout => "TIMEOUT"@,
    }
}

/// A port as `<port>/tcp`.
pub open spec fn port_text(port: u16) -> Seq<char> {
    decimal(port as nat) + "/tcp"@
}

/// A number of tenths written with one decimal: 123 as `12.3`.
pub open spec fn tenths_text(t: u64) -> Seq<char> {
    decimal((t / 10) as nat) + seq!['.', digit_char((t % 10) as int)]
}

/// A number of hundredths written with two decimals: 5 as `0.05`.
pub open spec fn hundredths_text(h: u64) -> Seq<char> {
    decimal((h / 100) as nat) + seq!['.'] + two_digits((h % 100) as nat)
}

/// A service hint's text, or `fallback` when there is none.
pub open spec fn service_or(service: Option<&'static str>, fallback: Seq<char>) -> Seq<char> {
    match service {
        Some(t) => t@,
        None => fallback,
    }
}

/// The latency column of a row: `12.3` (CSV) or nothing.
pub open spec fn latency_or_empty(latency: Option<u64>) -> Seq<char> {
    match latency {
        Some(t) => tenths_text(t),
        None => Seq::empty(),
    }
}

/// The results of `s` whose port is open, in order.
pub open spec fn open_results(s: Seq<ScanResult>) -> Seq<ScanResult>
    decreases s.len(),
{
    if s.len() == 0 {
        Seq::empty()
    } else if s.last().status == PortStatus::Open {
        open_results(s.drop_last()).push(s.last())
    } else {
        open_results(s.drop_last())
    }
}

/// The results a report shows: the open ones only, or all of them.
pub open spec fn shown_results(s: Seq<ScanResult>, open_only: bool) -> Seq<ScanResult> {
    if open_only {
        open_results(s)
    } else {
        s
    }
}

/// The contents of a sequence of strings.
pub open spec fn texts(v: Seq<String>) -> Seq<Seq<char>> {
    v.map_values(|l: String| l@)
}

/// The header row of the CSV output.
pub open spec fn csv_header() -> Seq<char> {
    "port,protocol,status,service,latency_ms"@
}

/// The CSV row of one result: port, protocol, status, service, latency.
pub open spec fn csv_line(r: ScanResult) -> Seq<char> {
    decimal(r.port as nat) + ",tcp,"@ + status_text(r.status) + ","@ + service_or(
        r.service,
        Seq::empty(),
    ) + ","@ + latency_or_empty(r.latency_tenths_ms)
}

/// The CSV rows of results, one per result.
pub open spec fn csv_rows(s: Seq<ScanResult>) -> Seq<Seq<char>> {
    s.map_values(|r: ScanResult| csv_line(r))
}

/// The lines of the CSV output: the header, then a row per shown result.
pub open spec fn csv_lines(results: Seq<ScanResult>, open_only: bool) -> Seq<Seq<char>> {
    seq![csv_header()] + csv_rows(shown_results(results, open_only))
}

/// The lines of the quiet output: one `<port>/tcp` per open port.
pub open spec fn quiet_lines(results: Seq<ScanResult>) -> Seq<Seq<char>> {
    open_results(results).map_values(|r: ScanResult| port_text(r.port))
}

/// The label of a port status.
pub fn status_label(s: PortStatus) -> (r: &'static str)
    ensures
        r@ == status_text(s),
{
    match s {
        PortStatus::Open => "OPEN",
        PortStatus::Closed => "CLOSED",
        PortStatus::Timeout => "TIMEOUT",
    }
}

/// Appends `t` tenths written with one decimal.
fn push_tenths(s: &mut String, t: u64)
    ensures
        final(s)@ == old(s)@ + tenths_text(t),
{
    push_decimal(s, t / 10);
    push_char(s, '.');
    push_char(s, digit(t % 10));
    proof {
        assert(old(s)@ + decimal((t / 10) as nat) + seq!['.'] + seq![digit_char((t % 10) as int)]
            =~= old(s)@ + tenths_text(t));
    }
}

/// Appends `h` hundredths written with two decimals.
fn push_hundredths(s: &mut String, h: u64)
    ensures
        final(s)@ == old(s)@ + hundredths_text(h),
{
    push_decimal(s, h / 100);
    push_char(s, '.');
    let c = h % 100;
    push_char(s, digit(c / 10));
    push_char(s, digit(c % 10));
    proof {
        assert(old(s)@ + hundredths_text(h) =~= old(s)@ + decimal((h / 100) as nat) + seq!['.']
            + seq![digit_char((c / 10) as int)] + seq![digit_char((c % 10) as int)]);
    }
}

/// The CSV row of one result.
pub fn csv_row(r: &ScanResult) -> (line: String)
    ensures
        line@ == csv_line(*r),
{
    let mut s = String::new();
    push_decimal(&mut s, r.port as u64);
    push_str(&mut s, ",tcp,");
    push_str(&mut s, status_label(r.status));
    push_str(&mut s, ",");
    let ghost before_service = s@;
    match r.service {
        Some(t) => push_str(&mut s, t),
        None => {},
    }
    proof {
        assert(s@ =~= before_service + service_or(r.service, Seq::empty()));
    }
    push_str(&mut s, ",");
    let ghost before_latency = s@;
    match r.latency_tenths_ms {
        Some(t) => push_tenths(&mut s, t),
        None => {},
    }
    proof {
        assert(s@ =~= before_latency + latency_or_empty(r.latency_tenths_ms));
        assert(s@ =~= csv_line(*r));
    }
    s
}

/// The CSV output: a header line, then one row per result, or per open
/// result when `open_only` is set.
pub fn render_csv(results: &Vec<ScanResult>, open_only: bool) -> (lines: Vec<String>)
    ensures
        texts(lines@) == csv_lines(results@, open_only),
{
    let mut lines: Vec<String> = Vec::new();
    lines.push(String::from_str("port,protocol,status,service,latency_ms"));
    let mut i: usize = 0;
    proof {
        assert(results@.take(0) =~= Seq::<ScanResult>::empty());
        assert(texts(lines@) =~= csv_lines(results@.take(0), open_only));
    }
    while i < results.len()
        invariant
            i <= results.len(),
            texts(lines@) == csv_lines(results@.take(i as int), open_only),
        decreases results.len() - i,
    {
        let ghost before = lines@;
        let r = &results[i];
        proof {
            assert(results@.take(i + 1).drop_last() =~= results@.take(i as int));
            assert(results@.take(i + 1).last() == *r);
        }
        if !open_only || r.status == PortStatus::Open {
            let line = csv_row(r);
            lines.push(line);
            proof {
                assert(texts(lines@) =~= texts(before).push(line@));
                assert(csv_lines(results@.take(i + 1), open_only) =~= csv_lines(
                    results@.take(i as int),
                    open_only,
                ).push(csv_line(*r)));
            }
        } else {
            proof {
                assert(csv_lines(results@.take(i + 1), open_only) =~= csv_lines(
                    results@.take(i as int),
                    open_only,
                ));
            }
        }
        i = i + 1;
    }
    proof {
        assert(results@.take(results.len() as int) =~= results@);
    }
    lines
}

/// The quiet output: one `<port>/tcp` line per open port, in order.
pub fn render_quiet(results: &Vec<ScanResult>) -> (lines: Vec<String>)
    ensures
        texts(lines@) == quiet_lines(results@),
{
    let mut lines: Vec<String> = Vec::new();
    let mut i: usize = 0;
    proof {
        assert(results@.take(0) =~= Seq::<ScanResult>::empty());
        assert(texts(lines@) =~= quiet_lines(results@.take(0)));
    }
    while i < results.len()
        invariant
            i <= results.len(),
            texts(lines@) == quiet_lines(results@.take(i as int)),
        decreases results.len() - i,
    {
        let ghost before = lines@;
        let r = &results[i];
        proof {
            assert(results@.take(i + 1).drop_last() =~= results@.take(i as int));
            assert(results@.take(i + 1).last() == *r);
        }
        if r.status == PortStatus::Open {
            let mut line = String::new();
            push_decimal(&mut line, r.port as u64);
            push_str(&mut line, "/tcp");
            lines.push(line);
            proof {
                assert(line@ =~= port_text(r.port));
                assert(texts(lines@) =~= texts(before).push(line@));
                assert(quiet_lines(results@.take(i + 1)) =~= quiet_lines(
                    results@.take(i as int),
                ).push(port_text(r.port)));
            }
        } else {
            proof {
                assert(quiet_lines(results@.take(i + 1)) =~= quiet_lines(results@.take(i as int)));
            }
        }
        i = i + 1;
    }
    proof {
        assert(results@.take(results.len() as int) =~= results@);
    }
    lines
}

/// The data of the JSON report: the target, its address, how many ports
/// were scanned and found open, the scan's duration and the shown results.
#[derive(Debug)]
pub struct JsonReport {
    pub target: String,
    pub ip: String,
    pub total_scanned: usize,
    pub open_count: usize,
    /// Duration of the scan, in hundredths of a second.
    pub duration_hundredths: u64,
    pub results: Vec<ScanResult>,
}

/// The JSON report of a scan of `target` (at address `ip`) that took
/// `elapsed_hundredths` hundredths of a second. It counts every result, and
/// lists the open ones only when `open_only` is set.
pub fn render_json(
    target: &str,
    ip: &str,
    results: &Vec<ScanResult>,
    open_only: bool,
    elapsed_hundredths: u64,
) -> (report: JsonReport)
    ensures
        report.target@ == target@,
        report.ip@ == ip@,
        report.total_scanned == results.len(),
        report.open_count == open_results(results@).len(),
        report.duration_hundredths == elapsed_hundredths,
        report.results@ == shown_results(results@, open_only),
{
    let mut shown: Vec<ScanResult> = Vec::new();
    let mut open_count: usize = 0;
    let mut i: usize = 0;
    proof {
        assert(results@.take(0) =~= Seq::<ScanResult>::empty());
    }
    while i < results.len()
        invariant
            i <= results.len(),
            open_count == open_results(results@.take(i as int)).len(),
            open_count <= i,
            shown@ == shown_results(results@.take(i as int), open_only),
        decreases results.len() - i,
    {
        let r = results[i];
        proof {
            assert(results@.take(i + 1).drop_last() =~= results@.take(i as int));
            assert(results@.take(i + 1).last() == r);
        }
        if r.status == PortStatus::Open {
            open_count = open_count + 1;
        }
        if !open_only || r.status == PortStatus::Open {
            shown.push(r);
        }
        i = i + 1;
    }
    proof {
        assert(results@.take(results.len() as int) =~= results@);
    }
    JsonReport {
        target: String::from_str(target),
        ip: String::from_str(ip),
        total_scanned: results.len(),
        open_count,
        duration_hundredths: elapsed_hundredths,
        results: shown,
    }
}

/// A piece of terminal output and its style.
#[derive(Debug)]
pub struct Span {
    pub text: String,
    pub style: TextStyle,
}

/// A span as text and style.
pub open spec fn span_view(s: Span) -> (Seq<char>, TextStyle) {
    (s.text@, s.style)
}

/// The spans of a line as texts and styles.
pub open spec fn spans_view(v: Seq<Span>) -> Seq<(Seq<char>, TextStyle)> {
    v.map_values(|s: Span| span_view(s))
}

/// The lines of a layout as texts and styles.
pub open spec fn layout_view(v: Seq<Vec<Span>>) -> Seq<Seq<(Seq<char>, TextStyle)>> {
    v.map_values(|l: Vec<Span>| spans_view(l@))
}

/// The horizontal rule above and below the table.
pub open spec fn rule_text() -> Seq<char> {
    repeat_char('-', 58)
}

/// The style of a status in the table.
pub open spec fn status_style(s: PortStatus) -> TextStyle {
    match s {
        PortStatus::Open => TextStyle::BoldGreen,
        PortStatus::Closed => TextStyle::Red,
        PortStatus::Timeout => TextStyle::Yellow,
    }
}

/// The latency column of the table: `12.3ms`, or `-`.
pub open spec fn latency_cell(latency: Option<u64>) -> Seq<char> {
    match latency {
        Some(t) => tenths_text(t) + "ms"@,
        None => "-"@,
    }
}

/// The first lines of the table: title, target and column headings.
pub open spec fn header_layout(target: Seq<char>, ip: Seq<char>) -> Seq<
    Seq<(Seq<char>, TextStyle)>,
> {
    seq![
        seq![],
        seq![("PortPeek"@, TextStyle::BoldCyan)],
        seq![
            ("Target: "@, TextStyle::Plain),
            (target, TextStyle::Bold),
            (" ("@, TextStyle::Plain),
            (ip, TextStyle::Dimmed),
            (")"@, TextStyle::Plain),
        ],
        seq![],
        seq![
            (pad_right("PORT"@, 12), TextStyle::Bold),
            (" "@, TextStyle::Plain),
            (pad_right("STATUS"@, 10), TextStyle::Bold),
            (" "@, TextStyle::Plain),
            (pad_right("SERVICE"@, 24), TextStyle::Bold),
            (" "@, TextStyle::Plain),
            (pad_right("LATENCY"@, 10), TextStyle::Bold),
        ],
        seq![(rule_text(), TextStyle::Dimmed)],
    ]
}

/// The table row of one result: port, status, service and latency in
/// columns of 12, 10, 24 and 10 characters.
pub open spec fn row_layout(r: ScanResult) -> Seq<(Seq<char>, TextStyle)> {
    seq![
        (pad_right(port_text(r.port), 12) + " "@, TextStyle::Plain),
        (pad_right(status_text(r.status), 10), status_style(r.status)),
        (" "@ + pad_right(service_or(r.service, "-"@), 24) + " "@ + pad_right(
            latency_cell(r.latency_tenths_ms),
            10,
        ), TextStyle::Plain),
    ]
}

/// The rows of the table.
pub open spec fn rows_layout(s: Seq<ScanResult>) -> Seq<Seq<(Seq<char>, TextStyle)>> {
    s.map_values(|r: ScanResult| row_layout(r))
}

/// The last lines of the table: the rule, the totals and a blank line.
pub open spec fn footer_layout(total: nat, open: nat, elapsed_hundredths: u64) -> Seq<
    Seq<(Seq<char>, TextStyle)>,
> {
    seq![
        seq![(rule_text(), TextStyle::Dimmed)],
        seq![
            ("Scanned "@ + decimal(total) + " ports in "@ + hundredths_text(elapsed_hundredths)
                + "s"@, TextStyle::Plain),
        ],
        seq![
            (decimal(open), if open > 0 {
                TextStyle::BoldGreen
            } else {
                TextStyle::Plain
            }),
            (" open ports"@, TextStyle::Plain),
        ],
        seq![],
    ]
}

/// The terminal table of a scan, line by line and span by span.
pub open spec fn terminal_layout(
    target: Seq<char>,
    ip: Seq<char>,
    results: Seq<ScanResult>,
    open_only: bool,
    elapsed_hundredths: u64,
) -> Seq<Seq<(Seq<char>, TextStyle)>> {
    header_layout(target, ip) + rows_layout(shown_results(results, open_only)) + footer_layout(
        results.len(),
        open_results(results).len(),
        elapsed_hundredths,
    )
}

/// Whether each of `pieces` is what `colored` may write for the span at
/// the same position.
pub open spec fn paints_each(pieces: Seq<Seq<char>>, spans: Seq<(Seq<char>, TextStyle)>) -> bool {
    &&& pieces.len() == spans.len()
    &&& forall|i: int|
        0 <= i < spans.len() ==> painted(#[trigger] pieces[i], spans[i].0, spans[i].1)
}

/// Whether `line` is what `colored` may write for the spans: each span
/// painted in its style, one after the other.
pub open spec fn paints(line: Seq<char>, spans: Seq<(Seq<char>, TextStyle)>) -> bool {
    exists|pieces: Seq<Seq<char>>| #[trigger] paints_each(pieces, spans) && pieces.flatten() == line
}

/// A span with the given text and style.
fn make_span(text: &str, style: TextStyle) -> (s: Span)
    ensures
        span_view(s) == (text@, style),
{
    Span { text: String::from_str(text), style }
}

/// A span holding the given string.
fn owned_span(text: String, style: TextStyle) -> (s: Span)
    ensures
        span_view(s) == (text@, style),
{
    Span { text, style }
}

/// `text` padded with spaces to `width` characters.
fn padded(text: &str, width: usize) -> (s: String)
    ensures
        s@ == pad_right(text@, width as nat),
{
    let mut s = String::from_str(text);
    pad_to(&mut s, width);
    s
}

/// The style of a status in the table.
fn style_of_status(s: PortStatus) -> (t: TextStyle)
    ensures
        t == status_style(s),
{
    match s {
        PortStatus::Open => TextStyle::BoldGreen,
        PortStatus::Closed => TextStyle::Red,
        PortStatus::Timeout => TextStyle::Yellow,
    }
}

/// The table row of one result.
fn table_row(r: &ScanResult) -> (line: Vec<Span>)
    ensures
        spans_view(line@) == row_layout(*r),
{
    let mut port_col = String::new();
    push_decimal(&mut port_col, r.port as u64);
    push_str(&mut port_col, "/tcp");
    proof {
        assert(port_col@ =~= port_text(r.port));
    }
    pad_to(&mut port_col, 12);
    push_str(&mut port_col, " ");
    let status_col = padded(status_label(r.status), 10);
    let mut rest = String::from_str(" ");
    let ghost before_service = rest@;
    match r.service {
        Some(t) => push_str(&mut rest, t),
        None => push_str(&mut rest, "-"),
    }
    proof {
        assert(rest@ =~= before_service + service_or(r.service, "-"@));
    }
    let ghost before_pad = rest@;
    pad_to(&mut rest, 25);
    proof {
        assert(rest@ =~= " "@ + pad_right(service_or(r.service, "-"@), 24)) by {
            reveal_strlit(" ");
            assert(" "@.len() == 1);
            let sv = service_or(r.service, "-"@);
            assert(before_pad =~= " "@ + sv);
            if sv.len() < 24 {
                assert(rest@ =~= " "@ + (sv + Seq::new((24 - sv.len()) as nat, |i: int| ' ')));
            }
        }
    }
    push_str(&mut rest, " ");
    let mut latency = String::new();
    match r.latency_tenths_ms {
        Some(t) => {
            push_tenths(&mut latency, t);
            push_str(&mut latency, "ms");
        },
        None => push_str(&mut latency, "-"),
    }
    proof {
        assert(latency@ =~= latency_cell(r.latency_tenths_ms));
    }
    pad_to(&mut latency, 10);
    push_str(&mut rest, latency.as_str());
    let line = vec![
        owned_span(port_col, TextStyle::Plain),
        owned_span(status_col, style_of_status(r.status)),
        owned_span(rest, TextStyle::Plain),
    ];
    proof {
        assert(spans_view(line@) =~= row_layout(*r));
    }
    line
}

/// The horizontal rule of the table.
fn rule() -> (s: String)
    ensures
        s@ == rule_text(),
{
    let mut s = String::new();
    push_repeated(&mut s, '-', 58);
    proof {
        assert(Seq::<char>::empty() + repeat_char('-', 58) =~= rule_text());
    }
    s
}

/// The first lines of the table.
fn table_header(target: &str, ip: &str) -> (lines: Vec<Vec<Span>>)
    ensures
        layout_view(lines@) == header_layout(target@, ip@),
{
    let l0: Vec<Span> = Vec::new();
    let l1 = vec![make_span("PortPeek", TextStyle::BoldCyan)];
    let l2 = vec![
        make_span("Target: ", TextStyle::Plain),
        make_span(target, TextStyle::Bold),
        make_span(" (", TextStyle::Plain),
        make_span(ip, TextStyle::Dimmed),
        make_span(")", TextStyle::Plain),
    ];
    let l3: Vec<Span> = Vec::new();
    let l4 = vec![
        owned_span(padded("PORT", 12), TextStyle::Bold),
        make_span(" ", TextStyle::Plain),
        owned_span(padded("STATUS", 10), TextStyle::Bold),
        make_span(" ", TextStyle::Plain),
        owned_span(padded("SERVICE", 24), TextStyle::Bold),
        make_span(" ", TextStyle::Plain),
        owned_span(padded("LATENCY", 10), TextStyle::Bold),
    ];
    let l5 = vec![owned_span(rule(), TextStyle::Dimmed)];
    let lines = vec![l0, l1, l2, l3, l4, l5];
    proof {
        assert(spans_view(lines@[0]@) =~= header_layout(target@, ip@)[0]);
        assert(spans_view(lines@[1]@) =~= header_layout(target@, ip@)[1]);
        assert(spans_view(lines@[2]@) =~= header_layout(target@, ip@)[2]);
        assert(spans_view(lines@[3]@) =~= header_layout(target@, ip@)[3]);
        assert(spans_view(lines@[4]@) =~= header_layout(target@, ip@)[4]);
        assert(spans_view(lines@[5]@) =~= header_layout(target@, ip@)[5]);
        assert(layout_view(lines@) =~= header_layout(target@, ip@));
    }
    lines
}

/// The last lines of the table.
fn table_footer(total: usize, open: usize, elapsed_hundredths: u64) -> (lines: Vec<Vec<Span>>)
    ensures
        layout_view(lines@) == footer_layout(total as nat, open as nat, elapsed_hundredths),
{
    let mut scanned = String::from_str("Scanned ");
    push_decimal(&mut scanned, total as u64);
    push_str(&mut scanned, " ports in ");
    push_hundredths(&mut scanned, elapsed_hundredths);
    push_str(&mut scanned, "s");
    let mut count = String::new();
    push_decimal(&mut count, open as u64);
    let count_style = if open > 0 {
        TextStyle::BoldGreen
    } else {
        TextStyle::Plain
    };
    let l0 = vec![owned_span(rule(), TextStyle::Dimmed)];
    let l1 = vec![owned_span(scanned, TextStyle::Plain)];
    let l2 = vec![owned_span(count, count_style), make_span(" open ports", TextStyle::Plain)];
    let l3: Vec<Span> = Vec::new();
    let lines = vec![l0, l1, l2, l3];
    proof {
        let f = footer_layout(total as nat, open as nat, elapsed_hundredths);
        assert(spans_view(lines@[0]@) =~= f[0]);
        assert(spans_view(lines@[1]@) =~= f[1]);
        assert(Seq::<char>::empty() + decimal(open as nat) =~= decimal(open as nat));
        assert(spans_view(lines@[2]@) =~= f[2]);
        assert(spans_view(lines@[3]@) =~= f[3]);
        assert(layout_view(lines@) =~= f);
    }
    lines
}

/// The terminal table of a scan of `target` (at address `ip`) that took
/// `elapsed_hundredths` hundredths of a second, as styled spans: title,
/// target, column headings, a row per result (per open result when
/// `open_only` is set), the number of ports scanned, the time taken and the
/// number of open ports.
pub fn table_layout(
    target: &str,
    ip: &str,
    results: &Vec<ScanResult>,
    open_only: bool,
    elapsed_hundredths: u64,
) -> (lines: Vec<Vec<Span>>)
    ensures
        layout_view(lines@) == terminal_layout(
            target@,
            ip@,
            results@,
            open_only,
            elapsed_hundredths,
        ),
{
    let mut lines = table_header(target, ip);
    let ghost head = layout_view(lines@);
    let mut open_count: usize = 0;
    let mut i: usize = 0;
    proof {
        assert(results@.take(0) =~= Seq::<ScanResult>::empty());
        assert(layout_view(lines@) =~= head + rows_layout(
            shown_results(results@.take(0), open_only),
        ));
    }
    while i < results.len()
        invariant
            i <= results.len(),
            open_count <= i,
            open_count == open_results(results@.take(i as int)).len(),
            layout_view(lines@) == head + rows_layout(
                shown_results(results@.take(i as int), open_only),
            ),
        decreases results.len() - i,
    {
        let ghost before = lines@;
        let r = &results[i];
        proof {
            assert(results@.take(i + 1).drop_last() =~= results@.take(i as int));
            assert(results@.take(i + 1).last() == *r);
        }
        if r.status == PortStatus::Open {
            open_count = open_count + 1;
        }
        if !open_only || r.status == PortStatus::Open {
            let row = table_row(r);
            lines.push(row);
            proof {
                assert(layout_view(lines@) =~= layout_view(before).push(spans_view(row@)));
                assert(rows_layout(shown_results(results@.take(i + 1), open_only)) =~= rows_layout(
                    shown_results(results@.take(i as int), open_only),
                ).push(row_layout(*r)));
            }
        }
        i = i + 1;
    }
    proof {
        assert(results@.take(results.len() as int) =~= results@);
    }
    let ghost body = layout_view(lines@);
    let mut footer = table_footer(results.len(), open_count, elapsed_hundredths);
    lines.append(&mut footer);
    proof {
        assert(layout_view(lines@) =~= body + footer_layout(
            results.len() as nat,
            open_count as nat,
            elapsed_hundredths,
        ));
    }
    lines
}

/// One line of styled spans, written out through `colored`.
pub fn paint_line(spans: &Vec<Span>) -> (line: String)
    ensures
        paints(line@, spans_view(spans@)),
{
    let mut s = String::new();
    let mut i: usize = 0;
    let ghost mut pieces: Seq<Seq<char>> = Seq::empty();
    proof {
        assert(pieces.flatten() =~= Seq::<char>::empty());
    }
    while i < spans.len()
        invariant
            i <= spans.len(),
            s@ == pieces.flatten(),
            paints_each(pieces, spans_view(spans@.take(i as int))),
        decreases spans.len() - i,
    {
        let ghost before = s@;
        let piece = paint(spans[i].text.as_str(), spans[i].style);
        push_str(&mut s, piece.as_str());
        proof {
            let sv = spans_view(spans@.take(i + 1));
            let sv0 = spans_view(spans@.take(i as int));
            assert(sv.drop_last() =~= sv0);
            assert(sv.last() == span_view(spans@[i as int]));
            pieces.lemma_flatten_push(piece@);
            let old_pieces = pieces;
            pieces = pieces.push(piece@);
            assert forall|j: int| 0 <= j < sv.len() implies painted(
                #[trigger] pieces[j],
                sv[j].0,
                sv[j].1,
            ) by {
                if j < i {
                    assert(sv[j] == sv0[j]);
                    assert(pieces[j] == old_pieces[j]);
                }
            }
        }
        i = i + 1;
    }
    proof {
        assert(spans@.take(spans.len() as int) =~= spans@);
        assert(paints_each(pieces, spans_view(spans@)));
    }
    s
}

/// The terminal table of a scan, line by line, styled through `colored`.
pub fn render_terminal(
    target: &str,
    ip: &str,
    results: &Vec<ScanResult>,
    open_only: bool,
    elapsed_hundredths: u64,
) -> (lines: Vec<String>)
    ensures
        lines.len() == terminal_layout(target@, ip@, results@, open_only, elapsed_hundredths).len(),
        forall|i: int|
            0 <= i < lines.len() ==> paints(
                #[trigger] lines@[i]@,
                terminal_layout(target@, ip@, results@, open_only, elapsed_hundredths)[i],
            ),
{
    let layout = table_layout(target, ip, results, open_only, elapsed_hundredths);
    let ghost spec_layout = terminal_layout(target@, ip@, results@, open_only, elapsed_hundredths);
    let mut lines: Vec<String> = Vec::new();
    let mut i: usize = 0;
    while i < layout.len()
        invariant
            i <= layout.len(),
            layout_view(layout@) == spec_layout,
            lines.len() == i,
            forall|j: int| 0 <= j < i ==> paints(#[trigger] lines@[j]@, spec_layout[j]),
        decreases layout.len() - i,
    {
        let line = paint_line(&layout[i]);
        proof {
            assert(spec_layout[i as int] == spans_view(layout@[i as int]@));
        }
        lines.push(line);
        i = i + 1;
    }
    lines
}

/// What a run writes out: lines of text, or a report to be written as JSON.
#[derive(Debug)]
pub enum Rendered {
    Lines(Vec<String>),
    Json(JsonReport),
}

/// The output of a scan in the selected format; quiet mode wins over the
/// format and lists the open ports only.
pub fn render_results(
    format: OutputFormat,
    target: &str,
    ip: &str,
    results: &Vec<ScanResult>,
    open_only: bool,
    quiet: bool,
    elapsed_hundredths: u64,
) -> (out: Rendered)
    ensures
        quiet ==> out is Lines && texts(out->Lines_0@) == quiet_lines(results@),
        !quiet && format == OutputFormat::Csv ==> out is Lines && texts(out->Lines_0@)
            == csv_lines(results@, open_only),
        !quiet && format == OutputFormat::Json ==> out is Json && ({
            let report = out->Json_0;
            &&& report.target@ == target@
            &&& report.ip@ == ip@
            &&& report.total_scanned == results.len()
            &&& report.open_count == open_results(results@).len()
            &&& report.duration_hundredths == elapsed_hundredths
            &&& report.results@ == shown_results(results@, open_only)
        }),
        !quiet && format == OutputFormat::Terminal ==> out is Lines && ({
            let lines = out->Lines_0@;
            let layout = terminal_layout(target@, ip@, results@, open_only, elapsed_hundredths);
            &&& lines.len() == layout.len()
            &&& forall|i: int| 0 <= i < lines.len() ==> paints(#[trigger] lines[i]@, layout[i])
        }),
{
    if quiet {
        return Rendered::Lines(render_quiet(results));
    }
    match format {
        OutputFormat::Terminal => Rendered::Lines(
            render_terminal(target, ip, results, open_only, elapsed_hundredths),
        ),
        OutputFormat::Json => Rendered::Json(
            render_json(target, ip, results, open_only, elapsed_hundredths),
        ),
        OutputFormat::Csv => Rendered::Lines(render_csv(results, open_only)),
    }
}

} // verus!
