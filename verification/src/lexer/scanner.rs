//! Character-by-character scanner: classifies the source text into tokens,
//! collecting every lexical diagnostic in a single left-to-right pass.

use vstd::prelude::*;
use vstd::string::StrSliceExecFns;
use vstd::utf8::is_ascii_chars;

verus! {

broadcast use vstd::string::group_string_axioms;

/// A classified lexical token.
///
/// Token identity is purely structural: two tokens are equal exactly when
/// they carry the same tag and the same payload. Tokens hold no position
/// information; lines are tracked only for diagnostics.
#[derive(Debug, PartialEq, Clone)]
pub enum TOKEN {
    LeftParen,
    RightParen,
    LeftBrace,
    RightBrace,
    Semicolon,
    Int,
    Return,
    Void,
    CONST(i32),
    IDENTIFIER(String),
}

/// The mathematical image of a [`TOKEN`]: payloads are `int` and `Seq<char>`.
pub ghost enum SpecToken {
    LeftParen,
    RightParen,
    LeftBrace,
    RightBrace,
    Semicolon,
    Int,
    Return,
    Void,
    Const(int),
    Identifier(Seq<char>),
}

impl View for TOKEN {
    type V = SpecToken;

    open spec fn view(&self) -> SpecToken {
        match self {
            TOKEN::LeftParen => SpecToken::LeftParen,
            TOKEN::RightParen => SpecToken::RightParen,
            TOKEN::LeftBrace => SpecToken::LeftBrace,
            TOKEN::RightBrace => SpecToken::RightBrace,
            TOKEN::Semicolon => SpecToken::Semicolon,
            TOKEN::Int => SpecToken::Int,
            TOKEN::Return => SpecToken::Return,
            TOKEN::Void => SpecToken::Void,
            TOKEN::CONST(v) => SpecToken::Const(*v as int),
            TOKEN::IDENTIFIER(s) => SpecToken::Identifier(s@),
        }
    }
}

/// Space and tab: consumed with no token emitted.
pub open spec fn is_blank(c: char) -> bool {
    c == ' ' || c == '\t'
}

/// An ASCII decimal digit.
pub open spec fn is_digit(c: char) -> bool {
    '0' <= c && c <= '9'
}

/// An ASCII letter.
pub open spec fn is_alpha(c: char) -> bool {
    ('a' <= c && c <= 'z') || ('A' <= c && c <= 'Z')
}

/// A character that may occur in an identifier: letters and underscore.
pub open spec fn is_word_char(c: char) -> bool {
    is_alpha(c) || c == '_'
}

/// The single-character punctuation of the subset.
pub open spec fn is_punct(c: char) -> bool {
    c == '(' || c == ')' || c == '{' || c == '}' || c == ';'
}

/// A lexical diagnostic: the one-based line on which the defect sits and a
/// human-readable description.
#[derive(Debug, PartialEq)]
pub struct ScanErr {
    pub line: i32,
    pub message: String,
}

/// The mathematical image of a [`ScanErr`].
pub ghost struct SpecErr {
    pub line: int,
    pub message: Seq<char>,
}

impl View for ScanErr {
    type V = SpecErr;

    open spec fn view(&self) -> SpecErr {
        SpecErr { line: self.line as int, message: self.message@ }
    }
}

/// Diagnostic text for a digit run that continues into letters or underscore.
pub open spec fn invalid_number_message() -> Seq<char> {
    "Invalid number"@
}

/// Diagnostic text for a digit run whose value does not fit in `i32`.
pub open spec fn overflow_message() -> Seq<char> {
    "Numeric overflow"@
}

/// Diagnostic text for a character that cannot begin any lexeme.
pub open spec fn unexpected_char_message(c: char) -> Seq<char> {
    "Unexpected character: "@.push(c)
}

/// End of the maximal run of digits that starts at `i`.
pub open spec fn digit_run_end(s: Seq<char>, i: int) -> int
    decreases s.len() - i,
{
    if 0 <= i < s.len() && is_digit(s[i]) {
        digit_run_end(s, i + 1)
    } else {
        i
    }
}

/// End of the maximal run of letters and underscores that starts at `i`.
pub open spec fn word_run_end(s: Seq<char>, i: int) -> int
    decreases s.len() - i,
{
    if 0 <= i < s.len() && is_word_char(s[i]) {
        word_run_end(s, i + 1)
    } else {
        i
    }
}

/// Numeric value of the digit `c`.
pub open spec fn digit_val(c: char) -> int {
    c as int - '0' as int
}

/// Value of the decimal digit run `s[i..j]`, most significant digit first.
pub open spec fn digits_val(s: Seq<char>, i: int, j: int) -> int
    decreases j - i,
{
    if i < j {
        digits_val(s, i, j - 1) * 10 + digit_val(s[j - 1])
    } else {
        0
    }
}

/// The static keyword table: the token for `w`, if `w` is a keyword.
pub open spec fn keyword_token(w: Seq<char>) -> Option<SpecToken> {
    if w == "int"@ {
        Some(SpecToken::Int)
    } else if w == "void"@ {
        Some(SpecToken::Void)
    } else if w == "return"@ {
        Some(SpecToken::Return)
    } else {
        None
    }
}

/// The token for the punctuation character `c`.
pub open spec fn punct_token(c: char) -> SpecToken {
    if c == '(' {
        SpecToken::LeftParen
    } else if c == ')' {
        SpecToken::RightParen
    } else if c == '{' {
        SpecToken::LeftBrace
    } else if c == '}' {
        SpecToken::RightBrace
    } else {
        SpecToken::Semicolon
    }
}

/// Everything one scan pass produces: the token sequence and the batch of
/// diagnostics, each in source order.
#[verifier::ext_equal]
pub ghost struct ScanOutcome {
    pub tokens: Seq<SpecToken>,
    pub errors: Seq<SpecErr>,
}

impl ScanOutcome {
    /// The empty outcome.
    pub open spec fn done() -> ScanOutcome {
        ScanOutcome { tokens: Seq::empty(), errors: Seq::empty() }
    }

    /// `self`, with the token `t` emitted in front.
    pub open spec fn after_token(self, t: SpecToken) -> ScanOutcome {
        ScanOutcome { tokens: seq![t] + self.tokens, errors: self.errors }
    }

    /// `self`, with the diagnostic `e` recorded in front.
    pub open spec fn after_error(self, e: SpecErr) -> ScanOutcome {
        ScanOutcome { tokens: self.tokens, errors: seq![e] + self.errors }
    }
}

/// What scanning the rest of `s` produces, starting at position `i` on the
/// given one-based line: the single source of truth for the scanner.
///
/// Maximal munch is built in: a digit-initial lexeme covers the whole digit
/// run starting at `i`, a word-initial lexeme the whole run of letters and
/// underscores, and classification happens only after the full run.
pub open spec fn scan_from(s: Seq<char>, i: int, line: int) -> ScanOutcome
    decreases s.len() - i,
        when 0 <= i
        via scan_from_decreases
{
    if i >= s.len() {
        ScanOutcome::done()
    } else {
        let c = s[i];
        if is_punct(c) {
            scan_from(s, i + 1, line).after_token(punct_token(c))
        } else if is_blank(c) {
            scan_from(s, i + 1, line)
        } else if c == '\n' {
            scan_from(s, i + 1, line + 1)
        } else if is_digit(c) {
            let j = digit_run_end(s, i);
            if j < s.len() && is_word_char(s[j]) {
                scan_from(s, j, line).after_error(
                    SpecErr { line, message: invalid_number_message() },
                )
            } else if digits_val(s, i, j) > i32::MAX {
                scan_from(s, j, line).after_error(SpecErr { line, message: overflow_message() })
            } else {
                scan_from(s, j, line).after_token(SpecToken::Const(digits_val(s, i, j)))
            }
        } else if is_word_char(c) {
            let j = word_run_end(s, i);
            let w = s.subrange(i, j);
            match keyword_token(w) {
                Some(t) => scan_from(s, j, line).after_token(t),
                None => scan_from(s, j, line).after_token(SpecToken::Identifier(w)),
            }
        } else {
            scan_from(s, i + 1, line).after_error(
                SpecErr { line, message: unexpected_char_message(c) },
            )
        }
    }
}

#[via_fn]
proof fn scan_from_decreases(s: Seq<char>, i: int, line: int) {
    if 0 <= i < s.len() {
        lemma_digit_run_end(s, i);
        lemma_word_run_end(s, i);
    }
}

/// The maximal digit run starting at `i`: it sits inside the text, consists
/// of digits only, is not empty when a digit stands at `i`, and cannot be
/// extended to the right.
pub proof fn lemma_digit_run_end(s: Seq<char>, i: int)
    requires
        0 <= i <= s.len(),
    ensures
        i <= digit_run_end(s, i) <= s.len(),
        i < s.len() && is_digit(s[i]) ==> i + 1 <= digit_run_end(s, i),
        forall|k: int| i <= k < digit_run_end(s, i) ==> is_digit(#[trigger] s[k]),
        digit_run_end(s, i) < s.len() ==> !is_digit(s[digit_run_end(s, i)]),
    decreases s.len() - i,
{
    if i < s.len() && is_digit(s[i]) {
        lemma_digit_run_end(s, i + 1);
    }
}

/// The maximal run of letters and underscores starting at `i`, with the same
/// shape as [`lemma_digit_run_end`].
pub proof fn lemma_word_run_end(s: Seq<char>, i: int)
    requires
        0 <= i <= s.len(),
    ensures
        i <= word_run_end(s, i) <= s.len(),
        i < s.len() && is_word_char(s[i]) ==> i + 1 <= word_run_end(s, i),
        forall|k: int| i <= k < word_run_end(s, i) ==> is_word_char(#[trigger] s[k]),
        word_run_end(s, i) < s.len() ==> !is_word_char(s[word_run_end(s, i)]),
    decreases s.len() - i,
{
    if i < s.len() && is_word_char(s[i]) {
        lemma_word_run_end(s, i + 1);
    }
}

/// The token sequence of `ts`, seen mathematically.
pub open spec fn views_of_tokens(ts: Seq<TOKEN>) -> Seq<SpecToken> {
    ts.map_values(|t: TOKEN| t@)
}

/// The diagnostic sequence of `es`, seen mathematically.
pub open spec fn views_of_errors(es: Seq<ScanErr>) -> Seq<SpecErr> {
    es.map_values(|e: ScanErr| e@)
}

fn digit_value(c: char) -> (v: u64)
    requires
        is_digit(c),
    ensures
        v == digit_val(c),
{
    (c as u8 - 48) as u64
}

fn is_digit_char(c: char) -> (b: bool)
    ensures
        b == is_digit(c),
{
    '0' <= c && c <= '9'
}

fn is_word_char_exec(c: char) -> (b: bool)
    ensures
        b == is_word_char(c),
{
    ('a' <= c && c <= 'z') || ('A' <= c && c <= 'Z') || c == '_'
}

/// Relies on `String::push`: it appends exactly the given character at the
/// end of the string.
#[verifier::external_body]
fn push_char(s: &mut String, c: char)
    ensures
        final(s)@ == old(s)@.push(c),
{
    s.push(c)
}

/// Classifies a finished run of letters and underscores: a keyword token on
/// an exact match in the static keyword table, an identifier otherwise.
fn keyword_or_identifier(w: &str) -> (t: TOKEN)
    ensures
        t@ == (match keyword_token(w@) {
            Some(k) => k,
            None => SpecToken::Identifier(w@),
        }),
{
    let text = String::from_str(w);
    if text == String::from_str("int") {
        TOKEN::Int
    } else if text == String::from_str("void") {
        TOKEN::Void
    } else if text == String::from_str("return") {
        TOKEN::Return
    } else {
        TOKEN::IDENTIFIER(text)
    }
}

/// Cursor state of a [`Scanner`], as mathematical values.
pub ghost struct ScannerModel {
    pub source: Seq<char>,
    pub start: int,
    pub current: int,
    pub line: int,
}

/// Owns the cursor pair (lexeme start, current position) and the one-based
/// line counter while a single scan pass runs over the borrowed source text.
pub struct Scanner<'a> {
    source: &'a str,
    start: usize,
    current: usize,
    line: i32,
}

impl<'a> View for Scanner<'a> {
    type V = ScannerModel;

    closed spec fn view(&self) -> ScannerModel {
        ScannerModel {
            source: self.source@,
            start: self.start as int,
            current: self.current as int,
            line: self.line as int,
        }
    }
}

impl<'a> Scanner<'a> {
    /// Cursor well-formedness: the cursor stays inside the text and the line
    /// counter, which can only grow while characters remain, fits in `i32`.
    pub open spec fn wf(self) -> bool {
        &&& is_ascii_chars(self@.source)
        &&& self@.source.len() < i32::MAX
        &&& 0 <= self@.current <= self@.source.len()
        &&& 0 <= self@.start
        &&& 1 <= self@.line
        &&& self@.line + (self@.source.len() - self@.current) <= i32::MAX
    }

    /// A fresh scanner at the start of the text, on line one.
    pub fn new(source: &'a str) -> (s: Self)
        requires
            source.is_ascii(),
            source@.len() + 1 <= i32::MAX,
        ensures
            s.wf(),
            s@.source == source@,
            s@.start == 0,
            s@.current == 0,
            s@.line == 1,
    {
        Scanner { source, start: 0, current: 0, line: 1 }
    }

    fn is_at_end(&self) -> (r: bool)
        requires
            self.wf(),
        ensures
            r == (self@.current >= self@.source.len()),
    {
        proof {
            vstd::string::is_ascii_spec_bytes(self.source);
        }
        self.current >= self.source.len()
    }

    /// The character under the cursor.
    fn at(&self) -> (c: char)
        requires
            self.wf(),
            self@.current < self@.source.len(),
        ensures
            c == self@.source[self@.current],
    {
        let b = self.source.get_ascii(self.current);
        proof {
            assert(self@.source[self@.current] <= '\u{7f}');
        }
        b as char
    }

    /// Returns the character under the cursor and moves past it.
    fn advance(&mut self) -> (c: char)
        requires
            old(self).wf(),
            old(self)@.current < old(self)@.source.len(),
        ensures
            final(self).wf(),
            c == old(self)@.source[old(self)@.current],
            final(self)@ == (ScannerModel { current: old(self)@.current + 1, ..old(self)@ }),
    {
        let result = self.at();
        self.current = self.current + 1;
        result
    }

    /// One full scan pass from the cursor to the end of the text.
    ///
    /// Every lexical defect found on the way is recorded and scanning
    /// resumes after it, so one pass surfaces every defect at once. The
    /// result is `Ok` with the tokens exactly when the remaining text holds
    /// no defect, and `Err` with the whole batch of diagnostics otherwise —
    /// never a mix; [`scan_from`] is the exact statement of both sequences.
    #[verifier::loop_isolation(false)]
    pub fn scan_token(&mut self) -> (r: Result<Vec<TOKEN>, Vec<ScanErr>>)
        requires
            old(self).wf(),
        ensures
            final(self).wf(),
            final(self)@.source == old(self)@.source,
            final(self)@.current == old(self)@.source.len(),
            old(self)@.line <= final(self)@.line,
            ({
                let outcome = scan_from(old(self)@.source, old(self)@.current, old(self)@.line);
                match r {
                    Ok(tokens) => outcome.errors.len() == 0 && views_of_tokens(tokens@)
                        == outcome.tokens,
                    Err(errors) => outcome.errors.len() > 0 && views_of_errors(errors@)
                        == outcome.errors,
                }
            }),
    {
        let ghost s = self@.source;
        let ghost c0 = self@.current;
        let ghost l0 = self@.line;
        let ghost total = scan_from(s, c0, l0);
        let mut tokens: Vec<TOKEN> = Vec::new();
        let mut errors: Vec<ScanErr> = Vec::new();
        while self.current < self.source.len()
            invariant
                self.wf(),
                self@.source == s,
                c0 <= self@.current,
                l0 <= self@.line,
                total.tokens == views_of_tokens(tokens@) + scan_from(
                    s,
                    self@.current,
                    self@.line,
                ).tokens,
                total.errors == views_of_errors(errors@) + scan_from(
                    s,
                    self@.current,
                    self@.line,
                ).errors,
            decreases s.len() - self@.current,
        {
            proof {
                vstd::string::is_ascii_spec_bytes(self.source);
            }
            self.start = self.current;
            let ghost cur0 = self@.current;
            let ghost line0 = self@.line;
            let c = self.advance();
            match c {
                '(' => tokens.push(TOKEN::LeftParen),
                ')' => tokens.push(TOKEN::RightParen),
                '{' => tokens.push(TOKEN::LeftBrace),
                '}' => tokens.push(TOKEN::RightBrace),
                ';' => tokens.push(TOKEN::Semicolon),
                ' ' => (),
                '\t' => (),
                '\n' => self.line = self.line + 1,
                _ => {
                    if is_digit_char(c) {
                        let mut val: u64 = digit_value(c);
                        proof {
                            assert(digits_val(s, cur0, cur0) == 0);
                            assert(digits_val(s, cur0, cur0 + 1) == digit_val(s[cur0]));
                        }
                        while is_digit_char(self.peek())
                            invariant
                                self.wf(),
                                self@.source == s,
                                self@.start == cur0,
                                self@.line == line0,
                                cur0 < self@.current <= s.len(),
                                forall|k: int|
                                    cur0 <= k < self@.current ==> is_digit(#[trigger] s[k]),
                                digit_run_end(s, cur0) == digit_run_end(s, self@.current),
                                (if digits_val(s, cur0, self@.current) <= i32::MAX {
                                    val == digits_val(s, cur0, self@.current)
                                } else {
                                    i32::MAX < val <= 21474836479
                                }),
                            decreases s.len() - self@.current,
                        {
                            let d = self.advance();
                            if val <= i32::MAX as u64 {
                                val = val * 10 + digit_value(d);
                            }
                        }
                        proof {
                            assert(digit_run_end(s, self@.current) == self@.current);
                        }
                        let next = self.peek();
                        if is_word_char_exec(next) {
                            errors.push(
                                ScanErr {
                                    line: self.line,
                                    message: String::from_str("Invalid number"),
                                },
                            );
                        } else if val > i32::MAX as u64 {
                            errors.push(
                                ScanErr {
                                    line: self.line,
                                    message: String::from_str("Numeric overflow"),
                                },
                            );
                        } else {
                            tokens.push(TOKEN::CONST(val as i32));
                        }
                    } else if is_word_char_exec(c) {
                        while is_word_char_exec(self.peek())
                            invariant
                                self.wf(),
                                self@.source == s,
                                self@.start == cur0,
                                self@.line == line0,
                                cur0 < self@.current <= s.len(),
                                forall|k: int|
                                    cur0 <= k < self@.current ==> is_word_char(#[trigger] s[k]),
                                word_run_end(s, cur0) == word_run_end(s, self@.current),
                            decreases s.len() - self@.current,
                        {
                            self.advance();
                        }
                        proof {
                            assert(word_run_end(s, self@.current) == self@.current);
                        }
                        let w = self.source.substring_ascii(self.start, self.current);
                        let t = keyword_or_identifier(w);
                        tokens.push(t);
                    } else {
                        let mut message = String::from_str("Unexpected character: ");
                        push_char(&mut message, c);
                        errors.push(ScanErr { line: self.line, message });
                    }
                },
            }
            proof {
                assert(total.tokens =~= views_of_tokens(tokens@) + scan_from(
                    s,
                    self@.current,
                    self@.line,
                ).tokens);
                assert(total.errors =~= views_of_errors(errors@) + scan_from(
                    s,
                    self@.current,
                    self@.line,
                ).errors);
            }
        }
        proof {
            vstd::string::is_ascii_spec_bytes(self.source);
            assert(self@.current == s.len());
            assert(total.tokens =~= views_of_tokens(tokens@));
            assert(total.errors =~= views_of_errors(errors@));
        }
        if errors.len() == 0 {
            Ok(tokens)
        } else {
            Err(errors)
        }
    }

    /// The character under the cursor, or `'\0'` at the end of the text.
    fn peek(&self) -> (c: char)
        requires
            self.wf(),
        ensures
            c == (if self@.current < self@.source.len() {
                self@.source[self@.current]
            } else {
                '\0'
            }),
    {
        if self.is_at_end() {
            return '\0';
        }
        self.at()
    }

    /// Consumes the character under the cursor exactly when it is `expected`.
    #[allow(dead_code)]
    fn matches(&mut self, expected: char) -> (r: bool)
        requires
            old(self).wf(),
        ensures
            final(self).wf(),
            r == (old(self)@.current < old(self)@.source.len() && old(self)@.source[old(
                self,
            )@.current] == expected),
            final(self)@ == (if r {
                ScannerModel { current: old(self)@.current + 1, ..old(self)@ }
            } else {
                old(self)@
            }),
    {
        if self.is_at_end() {
            return false;
        }
        if self.at() != expected {
            return false;
        }
        self.current = self.current + 1;
        true
    }

    /// Lookahead classification, the extension point for multi-character
    /// lexemes: `valid` when `expected` follows (consuming it), `invalid`
    /// otherwise.
    #[allow(dead_code)]
    fn match_next(&mut self, expected: char, valid: TOKEN, invalid: TOKEN) -> (t: TOKEN)
        requires
            old(self).wf(),
        ensures
            final(self).wf(),
            ({
                let hit = old(self)@.current < old(self)@.source.len() && old(self)@.source[old(
                    self,
                )@.current] == expected;
                &&& t == (if hit {
                    valid
                } else {
                    invalid
                })
                &&& final(self)@ == (if hit {
                    ScannerModel { current: old(self)@.current + 1, ..old(self)@ }
                } else {
                    old(self)@
                })
            }),
    {
        if self.matches(expected) {
            return valid;
        }
        invalid
    }
}

} // verus!
