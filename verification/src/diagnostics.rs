//! Line-tagged diagnostics: a verified decimal renderer for line numbers,
//! the exact shape of a diagnostic line, and the session state holding the
//! accumulated messages and the has-failed flag.

use vstd::prelude::*;
use vstd::string::*;

verus! {

/// The decimal digit character for `d` (expected below 10).
pub open spec fn digit_char(d: nat) -> char {
    if d == 0 {
        '0'
    } else if d == 1 {
        '1'
    } else if d == 2 {
        '2'
    } else if d == 3 {
        '3'
    } else if d == 4 {
        '4'
    } else if d == 5 {
        '5'
    } else if d == 6 {
        '6'
    } else if d == 7 {
        '7'
    } else if d == 8 {
        '8'
    } else {
        '9'
    }
}

/// The usual decimal spelling of `n`, most significant digit first,
/// without leading zeros (except for `n == 0` itself).
pub open spec fn dec_str(n: nat) -> Seq<char>
    decreases n,
{
    if n < 10 {
        seq![digit_char(n)]
    } else {
        dec_str(n / 10).push(digit_char(n % 10))
    }
}

/// Appends the digit character for `d` to `s`.
fn push_digit(s: &mut String, d: u64)
    requires
        d < 10,
    ensures
        final(s)@ == old(s)@.push(digit_char(d as nat)),
{
    let digit: &str = if d == 0 {
        "0"
    } else if d == 1 {
        "1"
    } else if d == 2 {
        "2"
    } else if d == 3 {
        "3"
    } else if d == 4 {
        "4"
    } else if d == 5 {
        "5"
    } else if d == 6 {
        "6"
    } else if d == 7 {
        "7"
    } else if d == 8 {
        "8"
    } else {
        "9"
    };
    proof {
        reveal_strlit("0");
        reveal_strlit("1");
        reveal_strlit("2");
        reveal_strlit("3");
        reveal_strlit("4");
        reveal_strlit("5");
        reveal_strlit("6");
        reveal_strlit("7");
        reveal_strlit("8");
        reveal_strlit("9");
    }
    s.append(digit);
    proof {
        assert(s@ =~= old(s)@.push(digit_char(d as nat)));
    }
}

/// Renders `n` in decimal.
pub fn u64_to_dec(n: u64) -> (r: String)
    ensures
        r@ == dec_str(n as nat),
    decreases n,
{
    if n < 10 {
        let mut s = String::new();
        push_digit(&mut s, n);
        proof {
            assert(s@ =~= dec_str(n as nat));
        }
        s
    } else {
        let mut s = u64_to_dec(n / 10);
        push_digit(&mut s, n % 10);
        s
    }
}

/// The exact text of a diagnostic line: `[line <N>] Error<where>: <message>`.
pub open spec fn report_line(line: nat, loc: Seq<char>, message: Seq<char>) -> Seq<char> {
    "[line "@ + dec_str(line) + "] Error"@ + loc + ": "@ + message
}

/// Builds the diagnostic line for `line`, location qualifier `loc`
/// (empty for plain lexical errors) and `message`.
pub fn format_report(line: usize, loc: &str, message: &str) -> (r: String)
    ensures
        r@ == report_line(line as nat, loc@, message@),
{
    let mut s: String = "[line ".to_owned();
    let num = u64_to_dec(line as u64);
    s.append(num.as_str());
    s.append("] Error");
    s.append(loc);
    s.append(": ");
    s.append(message);
    s
}

/// Session-scoped diagnostics state: every diagnostic line recorded during
/// the scans run so far, and whether any of them marked a failure.
#[derive(Debug)]
pub struct Lox {
    pub had_error: bool,
    pub messages: Vec<String>,
}

impl Default for Lox {
    /// A fresh session: no failure, no recorded messages.
    fn default() -> (l: Self)
        ensures
            !l.had_error,
            l.messages@ == Seq::<String>::empty(),
    {
        Lox { had_error: false, messages: Vec::new() }
    }
}

impl Lox {
    /// Records a plain (unqualified) error at `line` and marks the session
    /// as failed.
    pub fn error(&mut self, line: usize, message: String)
        ensures
            final(self).had_error,
            final(self).messages.deep_view() == old(self).messages.deep_view().push(
                report_line(line as nat, Seq::<char>::empty(), message@),
            ),
    {
        let loc = String::new();
        self.report(line, loc, message);
    }

    /// Records a located error at `line` and marks the session as failed.
    pub fn report(&mut self, line: usize, loc: String, message: String)
        ensures
            final(self).had_error,
            final(self).messages.deep_view() == old(self).messages.deep_view().push(
                report_line(line as nat, loc@, message@),
            ),
    {
        let formatted = format_report(line, loc.as_str(), message.as_str());
        self.messages.push(formatted);
        self.had_error = true;
        proof {
            assert(self.messages.deep_view() =~= old(self).messages.deep_view().push(
                report_line(line as nat, loc@, message@),
            ));
        }
    }

    /// Clears the failure flag, as the interactive driver does between
    /// independent submissions; the recorded messages are kept.
    pub fn clear_error(&mut self)
        ensures
            !final(self).had_error,
            final(self).messages == old(self).messages,
    {
        self.had_error = false;
    }
}

} // verus!
