//! The scanner: the mathematical model of one scan pass (what token, error
//! and line movement each source position produces) and the executable
//! scanner proved to follow it exactly.

use vstd::prelude::*;
use vstd::string::*;
use crate::token::{KindModel, Token, TokenKind, TokenModel, keyword_kind, keyword_or_ident};

verus! {

/// ASCII decimal digit.
pub open spec fn is_digit(c: char) -> bool {
    '0' <= c && c <= '9'
}

/// ASCII letter or underscore: what may start an identifier.
pub open spec fn is_alpha(c: char) -> bool {
    ('a' <= c && c <= 'z') || ('A' <= c && c <= 'Z') || c == '_'
}

/// What may continue an identifier.
pub open spec fn is_alnum(c: char) -> bool {
    is_alpha(c) || is_digit(c)
}

/// First position at or after `i` that does not continue an identifier.
pub open spec fn ident_end(s: Seq<char>, i: nat) -> nat
    decreases s.len() - i,
{
    if i >= s.len() || !is_alnum(s[i as int]) {
        i
    } else {
        ident_end(s, i + 1)
    }
}

/// First position at or after `i` that is not a decimal digit.
pub open spec fn digits_end(s: Seq<char>, i: nat) -> nat
    decreases s.len() - i,
{
    if i >= s.len() || !is_digit(s[i as int]) {
        i
    } else {
        digits_end(s, i + 1)
    }
}

/// First position at or after `i` holding a newline, or the length:
/// where a line comment stops consuming.
pub open spec fn comment_end(s: Seq<char>, i: nat) -> nat
    decreases s.len() - i,
{
    if i >= s.len() || s[i as int] == '\n' {
        i
    } else {
        comment_end(s, i + 1)
    }
}

/// First position at or after `i` holding a closing quote, or the length.
pub open spec fn string_end(s: Seq<char>, i: nat) -> nat
    decreases s.len() - i,
{
    if i >= s.len() || s[i as int] == '"' {
        i
    } else {
        string_end(s, i + 1)
    }
}

/// How many newline characters `s` holds in positions `[i, j)`.
pub open spec fn count_nl(s: Seq<char>, i: nat, j: nat) -> nat
    decreases j - i,
{
    if i >= j || i >= s.len() {
        0
    } else {
        (if s[i as int] == '\n' {
            1nat
        } else {
            0nat
        }) + count_nl(s, i + 1, j)
    }
}

pub proof fn lemma_ident_end_bounds(s: Seq<char>, i: nat)
    requires
        i <= s.len(),
    ensures
        i <= ident_end(s, i) <= s.len(),
    decreases s.len() - i,
{
    if i < s.len() && is_alnum(s[i as int]) {
        lemma_ident_end_bounds(s, i + 1);
    }
}

pub proof fn lemma_digits_end_bounds(s: Seq<char>, i: nat)
    requires
        i <= s.len(),
    ensures
        i <= digits_end(s, i) <= s.len(),
    decreases s.len() - i,
{
    if i < s.len() && is_digit(s[i as int]) {
        lemma_digits_end_bounds(s, i + 1);
    }
}

pub proof fn lemma_comment_end_bounds(s: Seq<char>, i: nat)
    requires
        i <= s.len(),
    ensures
        i <= comment_end(s, i) <= s.len(),
    decreases s.len() - i,
{
    if i < s.len() && s[i as int] != '\n' {
        lemma_comment_end_bounds(s, i + 1);
    }
}

pub proof fn lemma_string_end_bounds(s: Seq<char>, i: nat)
    requires
        i <= s.len(),
    ensures
        i <= string_end(s, i) <= s.len(),
    decreases s.len() - i,
{
    if i < s.len() && s[i as int] != '"' {
        lemma_string_end_bounds(s, i + 1);
    }
}

/// Extending the counted range by one position adds one exactly when that
/// position holds a newline.
pub proof fn lemma_count_nl_extend(s: Seq<char>, i: nat, j: nat)
    requires
        i <= j < s.len(),
    ensures
        count_nl(s, i, j + 1) == count_nl(s, i, j) + (if s[j as int] == '\n' {
            1nat
        } else {
            0nat
        }),
    decreases j - i,
{
    if i < j {
        lemma_count_nl_extend(s, i + 1, j);
    } else {
        assert(count_nl(s, j + 1, j + 1) == 0);
    }
}

/// The kind of a lexical error: a character that starts no token, or a
/// string literal still open at end of input.
#[derive(Clone, Copy, Debug, PartialEq, Eq, Structural)]
pub enum ErrorKind {
    UnexpectedChar,
    UnterminatedString,
}

/// Mathematical model of a recorded lexical error.
pub struct ErrModel {
    pub line: nat,
    pub kind: ErrorKind,
}

/// A lexical error recorded during a scan pass, tagged with the line it
/// was detected on.
#[derive(Clone, Copy, Debug)]
pub struct LexError {
    pub line: usize,
    pub kind: ErrorKind,
}

impl View for LexError {
    type V = ErrModel;

    open spec fn view(&self) -> ErrModel {
        ErrModel { line: self.line as nat, kind: self.kind }
    }
}

/// What one dispatch on the character at the current position does:
/// where scanning resumes, the line counter afterwards, and the token or
/// error (at most one of each) the step contributes.
pub struct StepModel {
    pub next: nat,
    pub line: nat,
    pub token: Option<TokenModel>,
    pub error: Option<ErrModel>,
}

/// A single-character token at `pos`.
pub open spec fn single_step(s: Seq<char>, pos: nat, line: nat, kind: KindModel) -> StepModel {
    StepModel {
        next: pos + 1,
        line,
        token: Some(
            TokenModel { kind, lexeme: s.subrange(pos as int, pos as int + 1), line },
        ),
        error: None,
    }
}

/// A one- or two-character operator at `pos`: the two-character kind when
/// the next character is `=`, the one-character kind otherwise.
pub open spec fn pair_step(
    s: Seq<char>,
    pos: nat,
    line: nat,
    one: KindModel,
    two: KindModel,
) -> StepModel {
    if pos + 1 < s.len() && s[pos as int + 1] == '=' {
        StepModel {
            next: pos + 2,
            line,
            token: Some(
                TokenModel { kind: two, lexeme: s.subrange(pos as int, pos as int + 2), line },
            ),
            error: None,
        }
    } else {
        single_step(s, pos, line, one)
    }
}

/// A string literal opened at `pos`: its value is the text between the
/// quotes, its line the line of the closing quote (embedded newlines
/// advance the counter); an unterminated literal contributes no token and
/// an error at the line the string started.
pub open spec fn string_step(s: Seq<char>, pos: nat, line: nat) -> StepModel {
    let close = string_end(s, pos + 1);
    if close >= s.len() {
        StepModel {
            next: s.len(),
            line: line + count_nl(s, pos + 1, s.len()),
            token: None,
            error: Some(ErrModel { line, kind: ErrorKind::UnterminatedString }),
        }
    } else {
        let line_after = line + count_nl(s, pos + 1, close);
        StepModel {
            next: close + 1,
            line: line_after,
            token: Some(
                TokenModel {
                    kind: KindModel::Str(s.subrange(pos as int + 1, close as int)),
                    lexeme: s.subrange(pos as int, close as int + 1),
                    line: line_after,
                },
            ),
            error: None,
        }
    }
}

/// A number literal at `pos`: contiguous digits, then optionally one `.`
/// followed by at least one digit (a trailing `.` is not consumed).
/// The payload is the exact numeric text. A number never starts with `.`:
/// a leading period scans as a `Period` token, then the digits.
pub open spec fn number_step(s: Seq<char>, pos: nat, line: nat) -> StepModel {
    let whole = digits_end(s, pos);
    let stop = if whole + 1 < s.len() && s[whole as int] == '.' && is_digit(
        s[whole as int + 1],
    ) {
        digits_end(s, whole + 1)
    } else {
        whole
    };
    StepModel {
        next: stop,
        line,
        token: Some(
            TokenModel {
                kind: KindModel::Number(s.subrange(pos as int, stop as int)),
                lexeme: s.subrange(pos as int, stop as int),
                line,
            },
        ),
        error: None,
    }
}

/// An identifier or keyword at `pos`: contiguous letters, digits and
/// underscores, classified against the keyword table.
pub open spec fn ident_step(s: Seq<char>, pos: nat, line: nat) -> StepModel {
    let stop = ident_end(s, pos);
    let lexeme = s.subrange(pos as int, stop as int);
    StepModel {
        next: stop,
        line,
        token: Some(TokenModel { kind: keyword_kind(lexeme), lexeme, line }),
        error: None,
    }
}

/// The total dispatch on the character at `pos`: every character either
/// yields a token, is skipped, or yields an "unexpected character" error.
pub open spec fn step(s: Seq<char>, pos: nat, line: nat) -> StepModel
    recommends
        pos < s.len(),
{
    let c = s[pos as int];
    if c == '(' {
        single_step(s, pos, line, KindModel::LParen)
    } else if c == ')' {
        single_step(s, pos, line, KindModel::RParen)
    } else if c == '{' {
        single_step(s, pos, line, KindModel::LBrace)
    } else if c == '}' {
        single_step(s, pos, line, KindModel::RBrace)
    } else if c == ',' {
        single_step(s, pos, line, KindModel::Comma)
    } else if c == '.' {
        single_step(s, pos, line, KindModel::Period)
    } else if c == '-' {
        single_step(s, pos, line, KindModel::Minus)
    } else if c == '+' {
        single_step(s, pos, line, KindModel::Plus)
    } else if c == ';' {
        single_step(s, pos, line, KindModel::Semicolon)
    } else if c == '*' {
        single_step(s, pos, line, KindModel::Star)
    } else if c == '!' {
        pair_step(s, pos, line, KindModel::Bang, KindModel::BangEq)
    } else if c == '=' {
        pair_step(s, pos, line, KindModel::Eq, KindModel::EqEq)
    } else if c == '<' {
        pair_step(s, pos, line, KindModel::Lt, KindModel::LtEq)
    } else if c == '>' {
        pair_step(s, pos, line, KindModel::Gt, KindModel::GtEq)
    } else if c == '/' {
        if pos + 1 < s.len() && s[pos as int + 1] == '/' {
            StepModel { next: comment_end(s, pos + 2), line, token: None, error: None }
        } else {
            single_step(s, pos, line, KindModel::Slash)
        }
    } else if c == ' ' || c == '\r' || c == '\t' {
        StepModel { next: pos + 1, line, token: None, error: None }
    } else if c == '\n' {
        StepModel { next: pos + 1, line: line + 1, token: None, error: None }
    } else if c == '"' {
        string_step(s, pos, line)
    } else if is_digit(c) {
        number_step(s, pos, line)
    } else if is_alpha(c) {
        ident_step(s, pos, line)
    } else {
        StepModel {
            next: pos + 1,
            line,
            token: None,
            error: Some(ErrModel { line, kind: ErrorKind::UnexpectedChar }),
        }
    }
}

/// Every step consumes at least one character and never runs past the end.
pub proof fn lemma_step_bounds(s: Seq<char>, pos: nat, line: nat)
    requires
        pos < s.len(),
    ensures
        pos < step(s, pos, line).next <= s.len(),
{
    let c = s[pos as int];
    if c == '/' && pos + 1 < s.len() && s[pos as int + 1] == '/' {
        lemma_comment_end_bounds(s, pos + 2);
    } else if c == '"' {
        lemma_string_end_bounds(s, pos + 1);
    } else if is_digit(c) {
        lemma_digits_end_bounds(s, pos + 1);
        assert(digits_end(s, pos) == digits_end(s, pos + 1));
        let whole = digits_end(s, pos);
        if whole + 1 < s.len() && s[whole as int] == '.' && is_digit(s[whole as int + 1]) {
            lemma_digits_end_bounds(s, whole + 1);
        }
    } else if is_alpha(c) && !('0' <= c && c <= '9') {
        lemma_ident_end_bounds(s, pos + 1);
        assert(ident_end(s, pos) == ident_end(s, pos + 1));
    }
}

/// The outcome of a whole scan pass from a given position: the tokens and
/// errors produced, in source order, and the line counter at the end.
pub struct ScanOut {
    pub tokens: Seq<TokenModel>,
    pub errors: Seq<ErrModel>,
    pub line: nat,
}

/// The token contributed by one step, as a sequence of zero or one.
pub open spec fn opt_token(o: Option<TokenModel>) -> Seq<TokenModel> {
    match o {
        Some(t) => seq![t],
        None => Seq::empty(),
    }
}

/// The error contributed by one step, as a sequence of zero or one.
pub open spec fn opt_error(o: Option<ErrModel>) -> Seq<ErrModel> {
    match o {
        Some(e) => seq![e],
        None => Seq::empty(),
    }
}

/// The whole scan pass from position `pos` on line `line`: one step per
/// outer iteration until the end of the source. The end-of-input token is
/// not included here; `scan_result` appends it.
pub open spec fn scan_from(s: Seq<char>, pos: nat, line: nat) -> ScanOut
    decreases s.len() - pos,
        via scan_from_decreases
{
    if pos >= s.len() {
        ScanOut { tokens: Seq::empty(), errors: Seq::empty(), line }
    } else {
        let st = step(s, pos, line);
        let rest = scan_from(s, st.next, st.line);
        ScanOut {
            tokens: opt_token(st.token) + rest.tokens,
            errors: opt_error(st.error) + rest.errors,
            line: rest.line,
        }
    }
}

#[via_fn]
proof fn scan_from_decreases(s: Seq<char>, pos: nat, line: nat) {
    if pos < s.len() {
        lemma_step_bounds(s, pos, line);
    }
}

/// The complete token sequence for a source: every token the pass
/// produces, then exactly one end-of-input token with an empty lexeme at
/// the final line. Scanning always starts at line 1.
pub open spec fn scan_result(s: Seq<char>) -> Seq<TokenModel> {
    let out = scan_from(s, 0, 1);
    out.tokens.push(TokenModel { kind: KindModel::Eof, lexeme: Seq::empty(), line: out.line })
}

/// The errors a whole pass records, in source order.
pub open spec fn scan_errors(s: Seq<char>) -> Seq<ErrModel> {
    scan_from(s, 0, 1).errors
}

/// The models of a sequence of produced tokens.
pub open spec fn tokens_view(ts: Seq<Token>) -> Seq<TokenModel> {
    ts.map_values(|t: Token| t@)
}

/// The models of a sequence of recorded errors.
pub open spec fn errors_view(es: Seq<LexError>) -> Seq<ErrModel> {
    es.map_values(|e: LexError| e@)
}

/// No single dispatch ever produces an end-of-input token: that kind is
/// reserved for the sentinel appended after the pass.
proof fn lemma_step_no_eof(s: Seq<char>, pos: nat, line: nat)
    requires
        pos < s.len(),
    ensures
        step(s, pos, line).token matches Some(t) ==> t.kind != KindModel::Eof,
{
}

proof fn lemma_scan_from_no_eof(s: Seq<char>, pos: nat, line: nat)
    requires
        pos <= s.len(),
    ensures
        forall|i: int|
            0 <= i < scan_from(s, pos, line).tokens.len() ==> scan_from(
                s,
                pos,
                line,
            ).tokens[i].kind != KindModel::Eof,
    decreases s.len() - pos,
{
    if pos < s.len() {
        let st = step(s, pos, line);
        lemma_step_bounds(s, pos, line);
        lemma_step_no_eof(s, pos, line);
        lemma_scan_from_no_eof(s, st.next, st.line);
        let toks = scan_from(s, pos, line).tokens;
        let first = opt_token(st.token);
        let rest = scan_from(s, st.next, st.line).tokens;
        assert forall|i: int| 0 <= i < toks.len() implies toks[i].kind != KindModel::Eof by {
            assert(toks == first + rest);
            if i < first.len() {
                assert(toks[i] == first[i]);
            } else {
                assert(toks[i] == rest[i - first.len()]);
            }
        }
    }
}

/// Law: for any source, the produced token sequence is non-empty, its last
/// element is the end-of-input token with an empty lexeme at the final
/// line, and no earlier element is an end-of-input token.
pub proof fn lemma_scan_result_terminated(s: Seq<char>)
    ensures
        scan_result(s).len() > 0,
        scan_result(s).last().kind == KindModel::Eof,
        scan_result(s).last().lexeme == Seq::<char>::empty(),
        scan_result(s).last().line == scan_from(s, 0, 1).line,
        forall|i: int|
            0 <= i < scan_result(s).len() - 1 ==> scan_result(s)[i].kind != KindModel::Eof,
{
    lemma_scan_from_no_eof(s, 0, 1);
}

proof fn lemma_tok_some(ts: Seq<TokenModel>, t: TokenModel)
    ensures
        ts + opt_token(Some(t)) == ts.push(t),
{
    assert(ts + opt_token(Some(t)) =~= ts.push(t));
}

proof fn lemma_tok_none(ts: Seq<TokenModel>)
    ensures
        ts + opt_token(None) == ts,
{
    assert(ts + opt_token(None) =~= ts);
}

proof fn lemma_err_some(es: Seq<ErrModel>, e: ErrModel)
    ensures
        es + opt_error(Some(e)) == es.push(e),
{
    assert(es + opt_error(Some(e)) =~= es.push(e));
}

proof fn lemma_err_none(es: Seq<ErrModel>)
    ensures
        es + opt_error(None) == es,
{
    assert(es + opt_error(None) =~= es);
}

proof fn lemma_tokens_view_push(ts: Seq<Token>, t: Token)
    ensures
        tokens_view(ts.push(t)) == tokens_view(ts).push(t@),
{
    assert(tokens_view(ts.push(t)) =~= tokens_view(ts).push(t@));
}

proof fn lemma_errors_view_push(es: Seq<LexError>, e: LexError)
    ensures
        errors_view(es.push(e)) == errors_view(es).push(e@),
{
    assert(errors_view(es.push(e)) =~= errors_view(es).push(e@));
}

/// ASCII decimal digit, executable form.
fn is_digit_c(c: char) -> (r: bool)
    ensures
        r == is_digit(c),
{
    c >= '0' && c <= '9'
}

/// ASCII letter or underscore, executable form.
fn is_alpha_c(c: char) -> (r: bool)
    ensures
        r == is_alpha(c),
{
    (c >= 'a' && c <= 'z') || (c >= 'A' && c <= 'Z') || c == '_'
}

/// Drives a cursor over one source unit and produces its full token
/// sequence, collecting lexical errors on the way. `start` and `current`
/// are character indices (not byte indices), so scanning stays correct on
/// multi-byte input; `line` starts at 1 and advances on every consumed
/// newline.
pub struct Scanner {
    pub source: String,
    pub tokens: Vec<Token>,
    pub errors: Vec<LexError>,
    pub start: usize,
    pub current: usize,
    pub line: usize,
}

/// How the scanner's state after one dispatch relates to the state before
/// it, given the step's model.
pub open spec fn step_effect(pre: Scanner, post: Scanner, st: StepModel) -> bool {
    &&& post.source == pre.source
    &&& post.start == pre.start
    &&& post.current as nat == st.next
    &&& post.line as nat == st.line
    &&& tokens_view(post.tokens@) == tokens_view(pre.tokens@) + opt_token(st.token)
    &&& errors_view(post.errors@) == errors_view(pre.errors@) + opt_error(st.error)
    &&& post.wf()
}

impl Default for Scanner {
    /// A scanner over the empty source, at the start of line 1.
    fn default() -> (sc: Self)
        ensures
            sc.source@ == Seq::<char>::empty(),
            sc.tokens@ == Seq::<Token>::empty(),
            sc.errors@ == Seq::<LexError>::empty(),
            sc.start == 0,
            sc.current == 0,
            sc.line == 1,
            sc.wf(),
    {
        Scanner {
            source: String::new(),
            tokens: Vec::new(),
            errors: Vec::new(),
            start: 0,
            current: 0,
            line: 1,
        }
    }
}

impl Scanner {
    /// Positional bookkeeping the scanner maintains: the scan position
    /// never runs past the end, the lexeme start never past the position,
    /// and the line counter stays positive and bounded by the consumed
    /// prefix. The length bound on the source is a machine limit: it keeps
    /// the line counter within `usize`.
    pub open spec fn wf(&self) -> bool {
        &&& self.source@.len() < usize::MAX
        &&& self.current <= self.source@.len()
        &&& self.start <= self.current
        &&& 1 <= self.line
        &&& self.line <= self.current + 1
    }

    /// A fresh scanner over `s`.
    pub fn new(s: &str) -> (sc: Self)
        requires
            s@.len() < usize::MAX,
        ensures
            sc.source@ == s@,
            sc.tokens@ == Seq::<Token>::empty(),
            sc.errors@ == Seq::<LexError>::empty(),
            sc.start == 0,
            sc.current == 0,
            sc.line == 1,
            sc.wf(),
    {
        let mut sc = Scanner::default();
        sc.source = s.to_owned();
        sc
    }

    /// Whether the scan position has reached the end of the source.
    pub fn is_at_end(&self) -> (r: bool)
        ensures
            r == (self.current >= self.source@.len()),
    {
        self.current >= self.source.as_str().unicode_len()
    }

    /// The character at the scan position, without consuming it.
    fn peek(&self) -> (c: char)
        requires
            self.current < self.source@.len(),
        ensures
            c == self.source@[self.current as int],
    {
        self.source.as_str().get_char(self.current)
    }

    /// Consumes and returns the character at the scan position.
    fn advance(&mut self) -> (c: char)
        requires
            old(self).wf(),
            old(self).current < old(self).source@.len(),
        ensures
            c == old(self).source@[old(self).current as int],
            final(self).current == old(self).current + 1,
            final(self).source == old(self).source,
            final(self).start == old(self).start,
            final(self).line == old(self).line,
            final(self).tokens == old(self).tokens,
            final(self).errors == old(self).errors,
            final(self).wf(),
    {
        let c = self.peek();
        self.current = self.current + 1;
        c
    }

    /// Consumes the next character and reports true only when it equals
    /// `expected`; otherwise leaves the position unchanged.
    fn match_char(&mut self, expected: char) -> (r: bool)
        requires
            old(self).wf(),
        ensures
            r == (old(self).current < old(self).source@.len() && old(self).source@[old(
                self,
            ).current as int] == expected),
            final(self).current == if r {
                old(self).current + 1
            } else {
                old(self).current as int
            },
            final(self).source == old(self).source,
            final(self).start == old(self).start,
            final(self).line == old(self).line,
            final(self).tokens == old(self).tokens,
            final(self).errors == old(self).errors,
            final(self).wf(),
    {
        if self.is_at_end() {
            return false;
        }
        if self.peek() != expected {
            return false;
        }
        self.current = self.current + 1;
        true
    }

    /// Appends a token of kind `kind` whose lexeme is the source text
    /// between `start` and `current`, at the current line.
    fn add_token(&mut self, kind: TokenKind)
        requires
            old(self).wf(),
        ensures
            tokens_view(final(self).tokens@) == tokens_view(old(self).tokens@).push(
                TokenModel {
                    kind: kind@,
                    lexeme: old(self).source@.subrange(
                        old(self).start as int,
                        old(self).current as int,
                    ),
                    line: old(self).line as nat,
                },
            ),
            final(self).source == old(self).source,
            final(self).start == old(self).start,
            final(self).current == old(self).current,
            final(self).line == old(self).line,
            final(self).errors == old(self).errors,
            final(self).wf(),
    {
        let lexeme = self.source.as_str().substring_char(self.start, self.current).to_owned();
        let line = self.line;
        let t = Token { kind, lexeme, line };
        proof {
            lemma_tokens_view_push(self.tokens@, t);
        }
        self.tokens.push(t);
    }

    /// Consumes a line comment: everything up to (not including) the next
    /// newline, contributing no token.
    fn skip_comment(&mut self)
        requires
            old(self).wf(),
            old(self).current == old(self).start + 2,
        ensures
            final(self).current as nat == comment_end(old(self).source@, old(self).current as nat),
            final(self).source == old(self).source,
            final(self).start == old(self).start,
            final(self).line == old(self).line,
            final(self).tokens == old(self).tokens,
            final(self).errors == old(self).errors,
            final(self).wf(),
    {
        let ghost src = self.source@;
        let ghost begin = self.current as nat;
        while !self.is_at_end() && self.peek() != '\n'
            invariant
                self.wf(),
                self.source == old(self).source,
                self.source@ == src,
                self.start == old(self).start,
                self.line == old(self).line,
                self.tokens == old(self).tokens,
                self.errors == old(self).errors,
                begin <= self.current as nat,
                comment_end(src, begin) == comment_end(src, self.current as nat),
            decreases src.len() - self.current,
        {
            self.current = self.current + 1;
        }
    }

    /// Scans the rest of a string literal whose opening quote has just
    /// been consumed, following `string_step`.
    fn scan_string_rest(&mut self)
        requires
            old(self).wf(),
            old(self).current == old(self).start + 1,
            old(self).start < old(self).source@.len(),
            old(self).source@[old(self).start as int] == '"',
        ensures
            step_effect(
                *old(self),
                *final(self),
                string_step(old(self).source@, old(self).start as nat, old(self).line as nat),
            ),
    {
        let ghost src = self.source@;
        let ghost pos = self.start as nat;
        let ghost line0 = self.line as nat;
        let start_line = self.line;
        while !self.is_at_end() && self.peek() != '"'
            invariant
                self.wf(),
                self.source == old(self).source,
                self.source@ == src,
                self.start == old(self).start,
                self.tokens == old(self).tokens,
                self.errors == old(self).errors,
                pos + 1 <= self.current as nat,
                string_end(src, pos + 1) == string_end(src, self.current as nat),
                self.line as nat == line0 + count_nl(src, pos + 1, self.current as nat),
                line0 >= 1,
            decreases src.len() - self.current,
        {
            let c = self.peek();
            proof {
                lemma_count_nl_extend(src, pos + 1, self.current as nat);
            }
            self.current = self.current + 1;
            if c == '\n' {
                self.line = self.line + 1;
            }
        }
        proof {
            lemma_string_end_bounds(src, pos + 1);
        }
        if self.is_at_end() {
            let e = LexError { line: start_line, kind: ErrorKind::UnterminatedString };
            proof {
                lemma_errors_view_push(self.errors@, e);
                lemma_err_some(errors_view(self.errors@), e@);
                lemma_tok_none(tokens_view(self.tokens@));
            }
            self.errors.push(e);
        } else {
            let value = self.source.as_str().substring_char(self.start + 1, self.current).to_owned();
            self.current = self.current + 1;
            let lexeme = self.source.as_str().substring_char(self.start, self.current).to_owned();
            let line = self.line;
            let t = Token { kind: TokenKind::Str(value), lexeme, line };
            proof {
                lemma_tokens_view_push(self.tokens@, t);
                lemma_tok_some(tokens_view(self.tokens@), t@);
                lemma_err_none(errors_view(self.errors@));
            }
            self.tokens.push(t);
        }
    }

    /// Scans the rest of a number literal whose first digit has just been
    /// consumed, following `number_step`.
    fn scan_number_rest(&mut self)
        requires
            old(self).wf(),
            old(self).current == old(self).start + 1,
            old(self).start < old(self).source@.len(),
            is_digit(old(self).source@[old(self).start as int]),
        ensures
            step_effect(
                *old(self),
                *final(self),
                number_step(old(self).source@, old(self).start as nat, old(self).line as nat),
            ),
    {
        let ghost src = self.source@;
        let ghost pos = self.start as nat;
        while !self.is_at_end() && is_digit_c(self.peek())
            invariant
                self.wf(),
                self.source == old(self).source,
                self.source@ == src,
                self.start == old(self).start,
                self.line == old(self).line,
                self.tokens == old(self).tokens,
                self.errors == old(self).errors,
                pos + 1 <= self.current as nat,
                digits_end(src, pos) == digits_end(src, self.current as nat),
            decreases src.len() - self.current,
        {
            self.current = self.current + 1;
        }
        let whole = self.current;
        if !self.is_at_end() && self.peek() == '.' {
            let len = self.source.as_str().unicode_len();
            if self.current + 1 < len && is_digit_c(self.source.as_str().get_char(self.current + 1))
            {
                self.current = self.current + 1;
                while !self.is_at_end() && is_digit_c(self.peek())
                    invariant
                        self.wf(),
                        self.source == old(self).source,
                        self.source@ == src,
                        self.start == old(self).start,
                        self.line == old(self).line,
                        self.tokens == old(self).tokens,
                        self.errors == old(self).errors,
                        whole as nat + 1 <= self.current as nat,
                        digits_end(src, whole as nat + 1) == digits_end(src, self.current as nat),
                    decreases src.len() - self.current,
                {
                    self.current = self.current + 1;
                }
            }
        }
        let text = self.source.as_str().substring_char(self.start, self.current).to_owned();
        let lexeme = text.clone();
        let line = self.line;
        let t = Token { kind: TokenKind::Number(text), lexeme, line };
        proof {
            lemma_tokens_view_push(self.tokens@, t);
            lemma_tok_some(tokens_view(self.tokens@), t@);
            lemma_err_none(errors_view(self.errors@));
        }
        self.tokens.push(t);
    }

    /// Whether the character at the scan position may continue an
    /// identifier.
    fn peek_is_alnum(&self) -> (r: bool)
        requires
            self.current < self.source@.len(),
        ensures
            r == is_alnum(self.source@[self.current as int]),
    {
        let c = self.peek();
        is_alpha_c(c) || is_digit_c(c)
    }

    /// Scans the rest of an identifier or keyword whose first character
    /// has just been consumed, following `ident_step`.
    fn scan_ident_rest(&mut self)
        requires
            old(self).wf(),
            old(self).current == old(self).start + 1,
            old(self).start < old(self).source@.len(),
            is_alpha(old(self).source@[old(self).start as int]),
        ensures
            step_effect(
                *old(self),
                *final(self),
                ident_step(old(self).source@, old(self).start as nat, old(self).line as nat),
            ),
    {
        let ghost src = self.source@;
        let ghost pos = self.start as nat;
        while !self.is_at_end() && self.peek_is_alnum()
            invariant
                self.wf(),
                self.source == old(self).source,
                self.source@ == src,
                self.start == old(self).start,
                self.line == old(self).line,
                self.tokens == old(self).tokens,
                self.errors == old(self).errors,
                pos + 1 <= self.current as nat,
                ident_end(src, pos) == ident_end(src, self.current as nat),
            decreases src.len() - self.current,
        {
            self.current = self.current + 1;
        }
        let kind = keyword_or_ident(self.source.as_str(), self.start, self.current);
        let lexeme = self.source.as_str().substring_char(self.start, self.current).to_owned();
        let line = self.line;
        let t = Token { kind, lexeme, line };
        proof {
            lemma_tokens_view_push(self.tokens@, t);
            lemma_tok_some(tokens_view(self.tokens@), t@);
            lemma_err_none(errors_view(self.errors@));
        }
        self.tokens.push(t);
    }

    /// Consumes one character and dispatches on it: emits the token it
    /// starts, skips it, or records an error — the total dispatch of
    /// `step`, which never aborts the pass.
    pub fn scan_token(&mut self)
        requires
            old(self).wf(),
            old(self).start == old(self).current,
            old(self).current < old(self).source@.len(),
        ensures
            step_effect(
                *old(self),
                *final(self),
                step(old(self).source@, old(self).current as nat, old(self).line as nat),
            ),
            old(self).current < final(self).current,
    {
        proof {
            lemma_step_bounds(old(self).source@, old(self).current as nat, old(self).line as nat);
        }
        let c = self.advance();
        if c == '(' {
            self.add_token(TokenKind::LParen);
        } else if c == ')' {
            self.add_token(TokenKind::RParen);
        } else if c == '{' {
            self.add_token(TokenKind::LBrace);
        } else if c == '}' {
            self.add_token(TokenKind::RBrace);
        } else if c == ',' {
            self.add_token(TokenKind::Comma);
        } else if c == '.' {
            self.add_token(TokenKind::Period);
        } else if c == '-' {
            self.add_token(TokenKind::Minus);
        } else if c == '+' {
            self.add_token(TokenKind::Plus);
        } else if c == ';' {
            self.add_token(TokenKind::Semicolon);
        } else if c == '*' {
            self.add_token(TokenKind::Star);
        } else if c == '!' {
            if self.match_char('=') {
                self.add_token(TokenKind::BangEq);
            } else {
                self.add_token(TokenKind::Bang);
            }
        } else if c == '=' {
            if self.match_char('=') {
                self.add_token(TokenKind::EqEq);
            } else {
                self.add_token(TokenKind::Eq);
            }
        } else if c == '<' {
            if self.match_char('=') {
                self.add_token(TokenKind::LtEq);
            } else {
                self.add_token(TokenKind::Lt);
            }
        } else if c == '>' {
            if self.match_char('=') {
                self.add_token(TokenKind::GtEq);
            } else {
                self.add_token(TokenKind::Gt);
            }
        } else if c == '/' {
            if self.match_char('/') {
                self.skip_comment();
            } else {
                self.add_token(TokenKind::Slash);
            }
        } else if c == ' ' || c == '\r' || c == '\t' {
            // whitespace contributes no token
        } else if c == '\n' {
            self.line = self.line + 1;
        } else if c == '"' {
            self.scan_string_rest();
        } else if is_digit_c(c) {
            self.scan_number_rest();
        } else if is_alpha_c(c) {
            self.scan_ident_rest();
        } else {
            let line = self.line;
            let e = LexError { line, kind: ErrorKind::UnexpectedChar };
            proof {
                lemma_errors_view_push(self.errors@, e);
                lemma_err_some(errors_view(self.errors@), e@);
                lemma_tok_none(tokens_view(self.tokens@));
            }
            self.errors.push(e);
        }
        proof {
            let st = step(old(self).source@, old(self).current as nat, old(self).line as nat);
            if st.token is Some {
                lemma_tok_some(tokens_view(old(self).tokens@), st.token->0);
            } else {
                lemma_tok_none(tokens_view(old(self).tokens@));
            }
            if st.error is Some {
                lemma_err_some(errors_view(old(self).errors@), st.error->0);
            } else {
                lemma_err_none(errors_view(old(self).errors@));
            }
        }
    }

    /// Scans the whole source, one token per outer iteration, then appends
    /// the single end-of-input token with an empty lexeme at the final
    /// line. The produced sequence is exactly `scan_result` of the source
    /// and the recorded errors exactly `scan_errors` of it; the pass never
    /// halts on an error.
    pub fn scan_tokens(&mut self) -> (tokens: Vec<Token>)
        requires
            old(self).wf(),
            old(self).current == 0,
            old(self).line == 1,
            old(self).tokens@ == Seq::<Token>::empty(),
            old(self).errors@ == Seq::<LexError>::empty(),
        ensures
            tokens_view(tokens@) == scan_result(old(self).source@),
            errors_view(final(self).errors@) == scan_errors(old(self).source@),
            final(self).source == old(self).source,
            final(self).line as nat == scan_from(old(self).source@, 0, 1).line,
    {
        let ghost src = self.source@;
        proof {
            assert(tokens_view(self.tokens@) =~= Seq::<TokenModel>::empty());
            assert(errors_view(self.errors@) =~= Seq::<ErrModel>::empty());
            assert(Seq::<TokenModel>::empty() + scan_from(src, 0, 1).tokens =~= scan_from(
                src,
                0,
                1,
            ).tokens);
            assert(Seq::<ErrModel>::empty() + scan_from(src, 0, 1).errors =~= scan_from(
                src,
                0,
                1,
            ).errors);
        }
        while !self.is_at_end()
            invariant
                self.wf(),
                self.source == old(self).source,
                self.source@ == src,
                scan_from(src, 0, 1).tokens == tokens_view(self.tokens@) + scan_from(
                    src,
                    self.current as nat,
                    self.line as nat,
                ).tokens,
                scan_from(src, 0, 1).errors == errors_view(self.errors@) + scan_from(
                    src,
                    self.current as nat,
                    self.line as nat,
                ).errors,
                scan_from(src, 0, 1).line == scan_from(
                    src,
                    self.current as nat,
                    self.line as nat,
                ).line,
            decreases src.len() - self.current,
        {
            self.start = self.current;
            let ghost pre = *self;
            self.scan_token();
            proof {
                let st = step(src, pre.current as nat, pre.line as nat);
                lemma_step_bounds(src, pre.current as nat, pre.line as nat);
                let rest = scan_from(src, st.next, st.line);
                assert(scan_from(src, pre.current as nat, pre.line as nat).tokens == opt_token(
                    st.token,
                ) + rest.tokens);
                assert(tokens_view(pre.tokens@) + (opt_token(st.token) + rest.tokens) =~= (
                tokens_view(pre.tokens@) + opt_token(st.token)) + rest.tokens);
                assert(scan_from(src, pre.current as nat, pre.line as nat).errors == opt_error(
                    st.error,
                ) + rest.errors);
                assert(errors_view(pre.errors@) + (opt_error(st.error) + rest.errors) =~= (
                errors_view(pre.errors@) + opt_error(st.error)) + rest.errors);
            }
        }
        proof {
            assert(scan_from(src, self.current as nat, self.line as nat).tokens
                =~= Seq::<TokenModel>::empty());
            assert(scan_from(src, self.current as nat, self.line as nat).errors
                =~= Seq::<ErrModel>::empty());
            assert(scan_from(src, 0, 1).tokens =~= tokens_view(self.tokens@));
            assert(scan_from(src, 0, 1).errors =~= errors_view(self.errors@));
        }
        let line = self.line;
        let lexeme = String::new();
        let t = Token { kind: TokenKind::Eof, lexeme, line };
        proof {
            lemma_tokens_view_push(self.tokens@, t);
        }
        self.tokens.push(t);
        let mut out: Vec<Token> = Vec::new();
        core::mem::swap(&mut out, &mut self.tokens);
        out
    }
}

} // verus!
