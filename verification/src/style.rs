//! Colour and weight of text on a terminal.

use vstd::prelude::*;

verus! {

/// The text in green: between the escape sequences that set the
/// foreground colour to green and back to the default.
pub open spec fn in_green(text: Seq<char>) -> Seq<char> {
    "\x1b[32m"@ + text + "\x1b[39m"@
}

/// The text in cyan.
pub open spec fn in_cyan(text: Seq<char>) -> Seq<char> {
    "\x1b[36m"@ + text + "\x1b[39m"@
}

/// The text in bold: between the escape sequences that set bold and
/// reset all attributes.
pub open spec fn in_bold(text: Seq<char>) -> Seq<char> {
    "\x1b[1m"@ + text + "\x1b[0m"@
}

/// The text dimmed.
pub open spec fn in_dim(text: Seq<char>) -> Seq<char> {
    "\x1b[2m"@ + text + "\x1b[0m"@
}

/// `OwoColorize::green` wraps a text so that it is written after the
/// escape sequence for a green foreground, `ESC [ 32 m`, and before the
/// one for the default foreground, `ESC [ 39 m`.
#[verifier::external_body]
pub(crate) fn green(text: &str) -> (r: String)
    ensures
        r@ == in_green(text@),
{
    owo_colors::OwoColorize::green(&text).to_string()
}

/// `OwoColorize::cyan` wraps a text so that it is written after the
/// escape sequence for a cyan foreground, `ESC [ 36 m`, and before the
/// one for the default foreground, `ESC [ 39 m`.
#[verifier::external_body]
pub(crate) fn cyan(text: &str) -> (r: String)
    ensures
        r@ == in_cyan(text@),
{
    owo_colors::OwoColorize::cyan(&text).to_string()
}

/// `OwoColorize::bold` wraps a text so that it is written after the
/// escape sequence for bold, `ESC [ 1 m`, and before the one that resets
/// all attributes, `ESC [ 0 m`.
#[verifier::external_body]
pub(crate) fn bold(text: &str) -> (r: String)
    ensures
        r@ == in_bold(text@),
{
    owo_colors::OwoColorize::bold(&text).to_string()
}

/// `OwoColorize::dimmed` wraps a text so that it is written after the
/// escape sequence for dim, `ESC [ 2 m`, and before the one that resets
/// all attributes, `ESC [ 0 m`.
#[verifier::external_body]
pub(crate) fn dimmed(text: &str) -> (r: String)
    ensures
        r@ == in_dim(text@),
{
    owo_colors::OwoColorize::dimmed(&text).to_string()
}

} // verus!
