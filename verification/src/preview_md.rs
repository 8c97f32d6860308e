//! The ANSI style codes the markdown preview emits. The event-by-event
//! rendering itself lives with the binary, which walks the markdown
//! parser's event stream; these are the escape sequences it brackets
//! styled spans with.

use vstd::prelude::*;

verus! {

pub fn ansi_bold_on() -> (r: &'static str)
    ensures
        r@ == "\x1b[1m"@,
{
    "\x1b[1m"
}

pub fn ansi_bold_off() -> (r: &'static str)
    ensures
        r@ == "\x1b[22m"@,
{
    "\x1b[22m"
}

pub fn ansi_italic_on() -> (r: &'static str)
    ensures
        r@ == "\x1b[3m"@,
{
    "\x1b[3m"
}

pub fn ansi_italic_off() -> (r: &'static str)
    ensures
        r@ == "\x1b[23m"@,
{
    "\x1b[23m"
}

pub fn ansi_underline_on() -> (r: &'static str)
    ensures
        r@ == "\x1b[4m"@,
{
    "\x1b[4m"
}

pub fn ansi_underline_off() -> (r: &'static str)
    ensures
        r@ == "\x1b[24m"@,
{
    "\x1b[24m"
}

pub fn ansi_strikethrough_on() -> (r: &'static str)
    ensures
        r@ == "\x1b[9m"@,
{
    "\x1b[9m"
}

pub fn ansi_strikethrough_off() -> (r: &'static str)
    ensures
        r@ == "\x1b[29m"@,
{
    "\x1b[29m"
}

pub fn ansi_reset() -> (r: &'static str)
    ensures
        r@ == "\x1b[0m"@,
{
    "\x1b[0m"
}

} // verus!
