//! The status line that the watcher keeps at the bottom of the terminal.

use vstd::prelude::*;
use vstd::string::StringExecFns;
use crate::text::push_char;

verus! {

/// The status line shown while the watcher waits for a change.
pub const WATCHING: &'static str = "watching for changes...";

/// The width that a line is cleared to where the terminal does not tell its own.
pub const DEFAULT_WIDTH: usize = 10;

/// `term_size::dimensions`: the width and height of the terminal behind the
/// process's standard streams, or nothing when none of them is a terminal.
/// The answer depends on the terminal, so nothing is claimed of it, and
/// nothing is proved of it.
#[verifier::external_body]
fn terminal_dimensions() -> (r: Option<(usize, usize)>) {
    term_size::dimensions()
}

/// `s` written `n` times in a row.
pub open spec fn repeated(s: Seq<char>, n: nat) -> Seq<char>
    decreases n,
{
    if n == 0 {
        Seq::empty()
    } else {
        repeated(s, (n - 1) as nat) + s
    }
}

/// The number of columns to clear, given what the terminal said of its size.
pub open spec fn line_width(dims: Option<(usize, usize)>) -> nat {
    match dims {
        Some((w, _)) => w as nat,
        None => DEFAULT_WIDTH as nat,
    }
}

/// A carriage return, then `s` once per column, then `end`.
pub open spec fn clearing_line(s: Seq<char>, end: Seq<char>, dims: Option<(usize, usize)>) -> Seq<
    char,
> {
    seq!['\r'] + repeated(s, line_width(dims)) + end
}

/// The text that overwrites the current line of a terminal of the size `dims`
/// with copies of `s`, and ends it with `end`.
pub fn clear_line(s: &str, end: &str, dims: Option<(usize, usize)>) -> (r: String)
    ensures
        r@ == clearing_line(s@, end@, dims),
{
    let width: usize = match dims {
        Some((w, _)) => w,
        None => DEFAULT_WIDTH,
    };
    let mut out = String::new();
    push_char(&mut out, '\r');
    let mut i: usize = 0;
    assert(out@ =~= seq!['\r'] + repeated(s@, 0));
    while i < width
        invariant
            i <= width,
            out@ == seq!['\r'] + repeated(s@, i as nat),
        decreases width - i,
    {
        out.append(s);
        i = i + 1;
        assert(out@ =~= seq!['\r'] + repeated(s@, i as nat));
    }
    out.append(end);
    out
}

/// The text that overwrites the current line of this process's terminal with
/// copies of `s`, and ends it with `end`.
pub fn clear_watching_with(s: &str, end: &str) -> (r: String)
    ensures
        exists|dims: Option<(usize, usize)>| r@ == clearing_line(s@, end@, dims),
{
    let dims = terminal_dimensions();
    clear_line(s, end, dims)
}

/// The text that replaces the status line by a rule across the terminal.
pub fn clear_watching() -> (r: String)
    ensures
        exists|dims: Option<(usize, usize)>| r@ == clearing_line("―"@, "\n"@, dims),
{
    clear_watching_with("―", "\n")
}

} // verus!
