//! The driver's verified core: one scan pass over one source unit, with
//! every lexical error routed to the diagnostics state. Reading files,
//! prompting and process exit stay with the unverified shell around the
//! library, which only polls the failure flag afterwards.

use vstd::prelude::*;
use crate::diagnostics::{Lox, report_line};
use crate::scanner::{
    ErrModel,
    ErrorKind,
    Scanner,
    errors_view,
    scan_errors,
    scan_result,
    tokens_view,
};
use crate::token::Token;

verus! {

/// The message text recorded for each lexical error kind.
pub open spec fn message_of(kind: ErrorKind) -> Seq<char> {
    match kind {
        ErrorKind::UnexpectedChar => "Unexpected character."@,
        ErrorKind::UnterminatedString => "Unterminated string."@,
    }
}

/// The full diagnostic line a recorded lexical error produces.
pub open spec fn error_report(e: ErrModel) -> Seq<char> {
    report_line(e.line, Seq::empty(), message_of(e.kind))
}

/// The diagnostic lines for a sequence of recorded errors, in order.
pub open spec fn error_reports(es: Seq<ErrModel>) -> Seq<Seq<char>> {
    es.map_values(|e: ErrModel| error_report(e))
}

/// The message text for one error kind.
fn error_message(kind: ErrorKind) -> (r: &'static str)
    ensures
        r@ == message_of(kind),
{
    match kind {
        ErrorKind::UnexpectedChar => "Unexpected character.",
        ErrorKind::UnterminatedString => "Unterminated string.",
    }
}

impl Lox {
    /// Scans one source unit into its complete token sequence. Every
    /// lexical error of the pass is recorded as a diagnostic line and
    /// raises the failure flag; a pass without errors leaves the flag as
    /// it was. The length bound is a machine limit (it keeps line counting
    /// within `usize`).
    pub fn run(&mut self, source: &str) -> (tokens: Vec<Token>)
        requires
            source@.len() < usize::MAX,
        ensures
            tokens_view(tokens@) == scan_result(source@),
            final(self).had_error == (old(self).had_error || scan_errors(source@).len() > 0),
            final(self).messages.deep_view() == old(self).messages.deep_view() + error_reports(
                scan_errors(source@),
            ),
    {
        let mut scanner = Scanner::new(source);
        let tokens = scanner.scan_tokens();
        let ghost errs = scan_errors(source@);
        proof {
            assert(errs.take(0) =~= Seq::<ErrModel>::empty());
            assert(error_reports(errs.take(0)) =~= Seq::<Seq<char>>::empty());
            assert(self.messages.deep_view() + error_reports(errs.take(0))
                =~= self.messages.deep_view());
        }
        let n = scanner.errors.len();
        let mut i: usize = 0;
        while i < n
            invariant
                i <= n,
                n == scanner.errors@.len(),
                errors_view(scanner.errors@) == errs,
                self.had_error == (old(self).had_error || i > 0),
                self.messages.deep_view() == old(self).messages.deep_view() + error_reports(
                    errs.take(i as int),
                ),
            decreases n - i,
        {
            let e = scanner.errors[i];
            proof {
                assert(errs[i as int] == scanner.errors@[i as int]@);
            }
            let message = error_message(e.kind).to_owned();
            self.error(e.line, message);
            proof {
                assert(errs.take(i + 1) =~= errs.take(i as int).push(errs[i as int]));
                assert(error_reports(errs.take(i + 1)) =~= error_reports(errs.take(i as int)).push(
                    error_report(errs[i as int]),
                ));
            }
            i = i + 1;
        }
        proof {
            assert(errs.take(n as int) =~= errs);
        }
        tokens
    }
}

} // verus!
