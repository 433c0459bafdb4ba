//! Terminal styling through `colored`.
//!
//! Whether `colored` writes escape codes depends on the process's terminal
//! and environment (`NO_COLOR`, `CLICOLOR`, `CLICOLOR_FORCE`, whether
//! standard output is a terminal), so the contracts here state what holds
//! of every outcome: the text comes back unchanged, or wrapped in the style's
//! escape code and the reset code (see [`painted`]).
use colored::Colorize;
use vstd::prelude::*;

use crate::text::push_str;

verus! {

/// The styles that terminal output uses.
#[derive(Clone, Copy, Debug, PartialEq, Eq, Structural)]
pub enum TextStyle {
    Plain,
    Bold,
    BoldCyan,
    Dimmed,
    BoldGreen,
    Red,
    Yellow,
}

/// The SGR parameters that `colored` writes for a style.
pub open spec fn style_code(style: TextStyle) -> Seq<char> {
    match style {
        TextStyle::Plain => Seq::empty(),
        TextStyle::Bold => "1"@,
        TextStyle::BoldCyan => "1;36"@,
        TextStyle::Dimmed => "2"@,
        TextStyle::BoldGreen => "1;32"@,
        TextStyle::Red => "31"@,
        TextStyle::Yellow => "33"@,
    }
}

/// The escape character that starts a terminal control sequence.
pub open spec fn esc() -> char {
    '\u{1b}'
}

/// The control sequence that selects the SGR parameters `code`.
pub open spec fn sgr(code: Seq<char>) -> Seq<char> {
    seq![esc(), '['] + code + seq!['m']
}

/// The control sequence that resets all styling.
pub open spec fn reset() -> Seq<char> {
    sgr("0"@)
}

/// Whether `text` holds no escape character.
pub open spec fn no_escape(text: Seq<char>) -> bool {
    forall|i: int| 0 <= i < text.len() ==> text[i] != esc()
}

/// `text` with the control sequence `sgr(code)` inserted after every reset
/// sequence in it, as `colored` keeps a style alive across a reset nested in
/// the text. Reset sequences start with the only escape character they hold,
/// so their occurrences never overlap.
pub open spec fn escape_resets(text: Seq<char>, code: Seq<char>) -> Seq<char>
    decreases text.len(),
{
    if text.len() == 0 {
        Seq::empty()
    } else if text.len() >= 4 && text.take(4) == reset() {
        reset() + sgr(code) + escape_resets(text.skip(4), code)
    } else {
        seq![text[0]] + escape_resets(text.drop_first(), code)
    }
}

/// Whether `out` is something `colored` may write for `text` in `style`.
///
/// `colored` reads its styling switch when it starts writing, again when it
/// escapes nested resets (twice there) and again when it writes the style
/// code. With styling off at the start it writes the text alone. Otherwise
/// it writes the style's code or nothing, then the text with the style code
/// inserted after each nested reset or the text unchanged, then the reset
/// code; with the switch left alone that is the code, the escaped text and
/// the reset. A plain style writes the text alone.
pub open spec fn painted(out: Seq<char>, text: Seq<char>, style: TextStyle) -> bool {
    if style == TextStyle::Plain {
        out == text
    } else {
        let code = style_code(style);
        ||| out == text
        ||| out == sgr(code) + escape_resets(text, code) + reset()
        ||| out == sgr(code) + text + reset()
        ||| out == escape_resets(text, code) + reset()
        ||| out == text + reset()
    }
}

/// `text` in bold: `text.bold().to_string()`.
///
/// `colored` writes `ESC[1m`, the text and `ESC[0m` when styling is on
/// (with `ESC[1m` again after each reset sequence nested in the text), the
/// text alone when it is off.
#[verifier::external_body]
fn colored_bold(text: &str) -> (r: String)
    ensures
        painted(r@, text@, TextStyle::Bold),
{
    text.bold().to_string()
}

/// `text` in bold cyan: `text.bold().cyan().to_string()`, code `1;36`;
/// otherwise as [`colored_bold`].
#[verifier::external_body]
fn colored_bold_cyan(text: &str) -> (r: String)
    ensures
        painted(r@, text@, TextStyle::BoldCyan),
{
    text.bold().cyan().to_string()
}

/// `text` dimmed: `text.dimmed().to_string()`, code `2`; otherwise as
/// [`colored_bold`].
#[verifier::external_body]
fn colored_dimmed(text: &str) -> (r: String)
    ensures
        painted(r@, text@, TextStyle::Dimmed),
{
    text.dimmed().to_string()
}

/// `text` in bold green: `text.green().bold().to_string()`, code `1;32`;
/// otherwise as [`colored_bold`].
#[verifier::external_body]
fn colored_bold_green(text: &str) -> (r: String)
    ensures
        painted(r@, text@, TextStyle::BoldGreen),
{
    text.green().bold().to_string()
}

/// `text` in red: `text.red().to_string()`, code `31`; otherwise as
/// [`colored_bold`].
#[verifier::external_body]
fn colored_red(text: &str) -> (r: String)
    ensures
        painted(r@, text@, TextStyle::Red),
{
    text.red().to_string()
}

/// `text` in yellow: `text.yellow().to_string()`, code `33`; otherwise as
/// [`colored_bold`].
#[verifier::external_body]
fn colored_yellow(text: &str) -> (r: String)
    ensures
        painted(r@, text@, TextStyle::Yellow),
{
    text.yellow().to_string()
}

/// `text` in `style`, as `colored` writes it.
pub fn paint(text: &str, style: TextStyle) -> (r: String)
    ensures
        painted(r@, text@, style),
{
    match style {
        TextStyle::Plain => {
            let mut r = String::new();
            push_str(&mut r, text);
            proof {
                assert(Seq::<char>::empty() + text@ =~= text@);
            }
            r
        },
        TextStyle::Bold => colored_bold(text),
        TextStyle::BoldCyan => colored_bold_cyan(text),
        TextStyle::Dimmed => colored_dimmed(text),
        TextStyle::BoldGreen => colored_bold_green(text),
        TextStyle::Red => colored_red(text),
        TextStyle::Yellow => colored_yellow(text),
    }
}

} // verus!
