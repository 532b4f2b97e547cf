//! Terminal styling for the command line, through the `colored` crate: a
//! style is applied only when colour output is on (a terminal, and no
//! `NO_COLOR`), so each styled text is either the plain text or the text
//! wrapped in its escape codes.

use colored::Colorize;
use vstd::prelude::*;

use crate::text::{concat3, owned};

verus! {

/// The reset escape that ends a styled text.
pub open spec fn reset_code() -> Seq<char> {
    "\x1B[0m"@
}

/// `s` holds a reset escape.
pub open spec fn holds_reset(s: Seq<char>) -> bool {
    exists|i: int| 0 <= i && i + 4 <= s.len() && #[trigger] s.subrange(i, i + 4) == reset_code()
}

/// What `colored` prints for `s` under the style escape `code`: `s` itself
/// when colour is off, otherwise `s` between the style and reset escapes
/// (`s` as given unless it holds resets of its own).
pub open spec fn styled(r: Seq<char>, s: Seq<char>, code: Seq<char>) -> bool {
    ||| r == s
    ||| exists|mid: Seq<char>| #[trigger] (code + mid + reset_code()) == r && (!holds_reset(s) ==> mid == s)
}

/// `s.green().bold()`, printed.
#[verifier::external_body]
fn green_bold(s: &str) -> (r: String)
    ensures
        styled(r@, s@, "\x1B[1;32m"@),
{
    s.green().bold().to_string()
}

/// `s.cyan().bold()`, printed.
#[verifier::external_body]
fn cyan_bold(s: &str) -> (r: String)
    ensures
        styled(r@, s@, "\x1B[1;36m"@),
{
    s.cyan().bold().to_string()
}

/// `s.yellow().bold()`, printed.
#[verifier::external_body]
fn yellow_bold(s: &str) -> (r: String)
    ensures
        styled(r@, s@, "\x1B[1;33m"@),
{
    s.yellow().bold().to_string()
}

/// `s.red().bold()`, printed.
#[verifier::external_body]
fn red_bold(s: &str) -> (r: String)
    ensures
        styled(r@, s@, "\x1B[1;31m"@),
{
    s.red().bold().to_string()
}

/// `s.bold()`, printed.
#[verifier::external_body]
fn bold_text(s: &str) -> (r: String)
    ensures
        styled(r@, s@, "\x1B[1m"@),
{
    s.bold().to_string()
}

/// `s.cyan()`, printed.
#[verifier::external_body]
fn cyan_text(s: &str) -> (r: String)
    ensures
        styled(r@, s@, "\x1B[36m"@),
{
    s.cyan().to_string()
}

/// `✓ message`: a completed action, the mark in bold green.
pub fn success(message: &str) -> (line: String)
    ensures
        exists|mark: Seq<char>| styled(mark, "\u{2713}"@, "\x1B[1;32m"@) && line@ == mark + " "@ + message@,
{
    let mark = green_bold("\u{2713}");
    concat3(mark.as_str(), " ", message)
}

/// `→ message`: a step or neutral information, the arrow in bold cyan.
pub fn step(message: &str) -> (line: String)
    ensures
        exists|mark: Seq<char>| styled(mark, "\u{2192}"@, "\x1B[1;36m"@) && line@ == mark + " "@ + message@,
{
    let mark = cyan_bold("\u{2192}");
    concat3(mark.as_str(), " ", message)
}

/// `! message`: a warning, the mark in bold yellow.
pub fn warn(message: &str) -> (line: String)
    ensures
        exists|mark: Seq<char>| styled(mark, "!"@, "\x1B[1;33m"@) && line@ == mark + " "@ + message@,
{
    let mark = yellow_bold("!");
    concat3(mark.as_str(), " ", message)
}

/// `✗ message`: a failure, the mark in bold red.
pub fn failure(message: &str) -> (line: String)
    ensures
        exists|mark: Seq<char>| styled(mark, "\u{2717}"@, "\x1B[1;31m"@) && line@ == mark + " "@ + message@,
{
    let mark = red_bold("\u{2717}");
    concat3(mark.as_str(), " ", message)
}

pub fn bold(text: &str) -> (styled_text: String)
    ensures
        styled(styled_text@, text@, "\x1B[1m"@),
{
    bold_text(text)
}

pub fn cyan(text: &str) -> (styled_text: String)
    ensures
        styled(styled_text@, text@, "\x1B[36m"@),
{
    cyan_text(text)
}

} // verus!
