use crate::text::{owned, push_text};
use vstd::prelude::*;

verus! {

/// `text` wrapped in the terminal escape sequence that selects the styles `codes` (joined with
/// `;`) and the one that resets them; `text` unchanged when color is off.
pub open spec fn styled(text: Seq<char>, codes: Seq<char>, color: bool) -> Seq<char> {
    if color {
        "\x1b["@ + codes + "m"@ + text + "\x1b[0m"@
    } else {
        text
    }
}

fn style(text: &str, codes: &str, color: bool) -> (r: String)
    ensures
        r@ == styled(text@, codes@, color),
{
    if !color {
        return owned(text);
    }
    let mut out = owned("\x1b[");
    push_text(&mut out, codes);
    push_text(&mut out, "m");
    push_text(&mut out, text);
    push_text(&mut out, "\x1b[0m");
    out
}

/// `text` in bold, when `color` is on.
pub fn bold(text: &str, color: bool) -> (r: String)
    ensures
        r@ == styled(text@, "1"@, color),
{
    style(text, "1", color)
}

/// `text` in yellow, when `color` is on.
pub fn yellow(text: &str, color: bool) -> (r: String)
    ensures
        r@ == styled(text@, "33"@, color),
{
    style(text, "33", color)
}

/// `text` in bold red, when `color` is on.
pub fn bold_red(text: &str, color: bool) -> (r: String)
    ensures
        r@ == styled(text@, "1;31"@, color),
{
    style(text, "1;31", color)
}

} // verus!
