//! Terminal styling. The escape sequences are produced by `owo_colors`; the
//! contracts below record, character for character, what it emits.

use owo_colors::OwoColorize;
use vstd::prelude::*;

verus! {

/// The escape character that opens every control sequence.
pub open spec fn esc() -> char {
    '\u{1b}'
}

/// Select-graphic-rendition sequence with a one-digit parameter.
pub open spec fn sgr1(a: char) -> Seq<char> {
    seq![esc(), '[', a, 'm']
}

/// Select-graphic-rendition sequence with a two-digit parameter.
pub open spec fn sgr2(a: char, b: char) -> Seq<char> {
    seq![esc(), '[', a, b, 'm']
}

/// `s` in the foreground colour whose parameter is `3` followed by `code`,
/// with the default foreground restored after it.
pub open spec fn colored(code: char, s: Seq<char>) -> Seq<char> {
    sgr2('3', code) + s + sgr2('3', '9')
}

/// `s` with the style whose parameter is `code`, with all attributes reset after it.
pub open spec fn styled(code: char, s: Seq<char>) -> Seq<char> {
    sgr1(code) + s + sgr1('0')
}

/// `s` in cyan.
pub open spec fn cyan_text(s: Seq<char>) -> Seq<char> {
    colored('6', s)
}

/// `s` in green.
pub open spec fn green_text(s: Seq<char>) -> Seq<char> {
    colored('2', s)
}

/// `s` in magenta.
pub open spec fn magenta_text(s: Seq<char>) -> Seq<char> {
    colored('5', s)
}

/// `s` in yellow.
pub open spec fn yellow_text(s: Seq<char>) -> Seq<char> {
    colored('3', s)
}

/// `s` dimmed.
pub open spec fn dimmed_text(s: Seq<char>) -> Seq<char> {
    styled('2', s)
}

/// `s` in bold.
pub open spec fn bold_text(s: Seq<char>) -> Seq<char> {
    styled('1', s)
}

/// `OwoColorize::cyan`, rendered: `ESC[36m`, the text, `ESC[39m`.
#[verifier::external_body]
pub(crate) fn cyan(s: &str) -> (out: String)
    ensures
        out@ == cyan_text(s@),
{
    s.cyan().to_string()
}

/// `OwoColorize::green`, rendered: `ESC[32m`, the text, `ESC[39m`.
#[verifier::external_body]
pub(crate) fn green(s: &str) -> (out: String)
    ensures
        out@ == green_text(s@),
{
    s.green().to_string()
}

/// `OwoColorize::magenta`, rendered: `ESC[35m`, the text, `ESC[39m`.
#[verifier::external_body]
pub(crate) fn magenta(s: &str) -> (out: String)
    ensures
        out@ == magenta_text(s@),
{
    s.magenta().to_string()
}

/// `OwoColorize::yellow`, rendered: `ESC[33m`, the text, `ESC[39m`.
#[verifier::external_body]
pub(crate) fn yellow(s: &str) -> (out: String)
    ensures
        out@ == yellow_text(s@),
{
    s.yellow().to_string()
}

/// `OwoColorize::dimmed`, rendered: `ESC[2m`, the text, `ESC[0m`.
#[verifier::external_body]
pub(crate) fn dimmed(s: &str) -> (out: String)
    ensures
        out@ == dimmed_text(s@),
{
    s.dimmed().to_string()
}

/// `OwoColorize::bold`, rendered: `ESC[1m`, the text, `ESC[0m`.
#[verifier::external_body]
pub(crate) fn bold(s: &str) -> (out: String)
    ensures
        out@ == bold_text(s@),
{
    s.bold().to_string()
}

} // verus!
