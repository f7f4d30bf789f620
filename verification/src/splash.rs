//! The splash line that is shown while something loads.

use vstd::prelude::*;

verus! {

/// The spinner of a splash line that has no other.
pub const SPLASH_SPINNER: char = '●';

/// A splash line: the spinner, and the message behind it.
pub open spec fn splash_line(message: Seq<char>, spinner: char) -> Seq<char> {
    seq![spinner] + "  "@ + message
}

/// A splash line with a spinner of its own.
pub fn splash_text_with_spinner(message: &str, spinner: char) -> (r: String)
    ensures
        r@ == splash_line(message@, spinner),
{
    let mut out: String = String::new();
    out.push(spinner);
    assert(out@ =~= seq![spinner]);
    out.append("  ");
    out.append(message);
    out
}

/// A splash line.
pub fn splash_text(message: &str) -> (r: String)
    ensures
        r@ == splash_line(message@, SPLASH_SPINNER),
{
    splash_text_with_spinner(message, SPLASH_SPINNER)
}

/// A splash line is the spinner, two spaces and the message as it is.
pub proof fn law_splash_line(message: Seq<char>, spinner: char)
    ensures
        splash_line(message, spinner).len() == message.len() + 3,
        splash_line(message, spinner)[0] == spinner,
        splash_line(message, spinner)[1] == ' ' && splash_line(message, spinner)[2] == ' ',
        splash_line(message, spinner).skip(3) == message,
{
    reveal_strlit("  ");
    assert("  "@.len() == 2 && "  "@[0] == ' ' && "  "@[1] == ' ');
    assert(splash_line(message, spinner).skip(3) =~= message);
}

} // verus!
