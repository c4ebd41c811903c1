//! Terminal colours: text wrapped in the escape sequence of a style and the
//! sequence that resets it.

use vstd::prelude::*;
use vstd::string::*;

verus! {

/// `s` between the escape sequence `code` and the reset sequence.
pub open spec fn painted(code: Seq<char>, s: Seq<char>) -> Seq<char> {
    code + s + "\x1b[0m"@
}

fn paint(code: &str, s: &str) -> (text: String)
    ensures
        text@ == painted(code@, s@),
{
    let mut text = code.to_owned();
    text.append(s);
    text.append("\x1b[0m");
    text
}

pub fn red(s: &str) -> (text: String)
    ensures
        text@ == painted("\x1b[31m"@, s@),
{
    paint("\x1b[31m", s)
}

pub fn green(s: &str) -> (text: String)
    ensures
        text@ == painted("\x1b[32m"@, s@),
{
    paint("\x1b[32m", s)
}

pub fn yellow(s: &str) -> (text: String)
    ensures
        text@ == painted("\x1b[33m"@, s@),
{
    paint("\x1b[33m", s)
}

pub fn blue(s: &str) -> (text: String)
    ensures
        text@ == painted("\x1b[34m"@, s@),
{
    paint("\x1b[34m", s)
}

pub fn magenta(s: &str) -> (text: String)
    ensures
        text@ == painted("\x1b[35m"@, s@),
{
    paint("\x1b[35m", s)
}

pub fn cyan(s: &str) -> (text: String)
    ensures
        text@ == painted("\x1b[36m"@, s@),
{
    paint("\x1b[36m", s)
}

pub fn white(s: &str) -> (text: String)
    ensures
        text@ == painted("\x1b[37m"@, s@),
{
    paint("\x1b[37m", s)
}

pub fn bold(s: &str) -> (text: String)
    ensures
        text@ == painted("\x1b[1m"@, s@),
{
    paint("\x1b[1m", s)
}

pub fn underline(s: &str) -> (text: String)
    ensures
        text@ == painted("\x1b[4m"@, s@),
{
    paint("\x1b[4m", s)
}

pub fn reversed(s: &str) -> (text: String)
    ensures
        text@ == painted("\x1b[7m"@, s@),
{
    paint("\x1b[7m", s)
}

} // verus!
