//! General laws of the scanner's model: what whole classes of inputs scan
//! to, proved once and for all over [`scan_from`].

use vstd::prelude::*;

verus! {

use crate::lexer::scanner::{
    ScanOutcome, SpecErr, SpecToken, digit_run_end, digit_val, digits_val, is_blank, is_digit,
    is_punct, is_word_char, keyword_token, lemma_digit_run_end, lemma_word_run_end, punct_token,
    scan_from, word_run_end,
};

/// The digit run starting at `i` ends exactly at `j` when `s[i..j]` is all
/// digits and no digit follows `j`.
proof fn lemma_digit_run_end_range(s: Seq<char>, i: int, j: int)
    requires
        0 <= i <= j <= s.len(),
        forall|k: int| i <= k < j ==> is_digit(#[trigger] s[k]),
        j < s.len() ==> !is_digit(s[j]),
    ensures
        digit_run_end(s, i) == j,
    decreases j - i,
{
    if i < j {
        lemma_digit_run_end_range(s, i + 1, j);
    }
}

/// The run of letters and underscores starting at `i` ends exactly at `j`
/// when `s[i..j]` is all such characters and none follows `j`.
proof fn lemma_word_run_end_range(s: Seq<char>, i: int, j: int)
    requires
        0 <= i <= j <= s.len(),
        forall|k: int| i <= k < j ==> is_word_char(#[trigger] s[k]),
        j < s.len() ==> !is_word_char(s[j]),
    ensures
        word_run_end(s, i) == j,
    decreases j - i,
{
    if i < j {
        lemma_word_run_end_range(s, i + 1, j);
    }
}

/// The value of a digit run depends only on the characters of the run:
/// reading it inside `s` and inside the extracted window agree.
proof fn lemma_digits_val_subrange(s: Seq<char>, a: int, b: int, i: int, j: int)
    requires
        0 <= a <= i <= j <= b <= s.len(),
    ensures
        digits_val(s, i, j) == digits_val(s.subrange(a, b), i - a, j - a),
    decreases j - i,
{
    if i < j {
        lemma_digits_val_subrange(s, a, b, i, j - 1);
    }
}

/// Whitespace-only text scans to nothing: no tokens, no diagnostics,
/// whatever the starting position and line.
pub proof fn lemma_scan_whitespace(s: Seq<char>, i: int, line: int)
    requires
        0 <= i <= s.len(),
        forall|k: int| 0 <= k < s.len() ==> is_blank(#[trigger] s[k]) || s[k] == '\n',
    ensures
        scan_from(s, i, line) == ScanOutcome::done(),
    decreases s.len() - i,
{
    if i < s.len() {
        if s[i] == '\n' {
            lemma_scan_whitespace(s, i + 1, line + 1);
        } else {
            lemma_scan_whitespace(s, i + 1, line);
        }
    }
}

/// Scanning is pure: the outcome depends on the text, the position and the
/// line alone. Two scans of the same input — each outcome constrained the
/// way [`crate::lexer::scanner::Scanner::scan_token`] constrains its result
/// — are identical, token for token and diagnostic for diagnostic.
pub proof fn lemma_scan_pure(s: Seq<char>, i: int, line: int, o1: ScanOutcome, o2: ScanOutcome)
    requires
        o1 == scan_from(s, i, line),
        o2 == scan_from(s, i, line),
    ensures
        o1.tokens == o2.tokens,
        o1.errors == o2.errors,
{
}

/// A single valid lexeme, as bare text: one punctuation character, a digit
/// run whose value fits the token's width, or a run of letters and
/// underscores (keywords included).
pub open spec fn is_lexeme(w: Seq<char>) -> bool {
    ||| (w.len() == 1 && is_punct(w[0]))
    ||| (w.len() >= 1 && (forall|k: int| 0 <= k < w.len() ==> is_digit(#[trigger] w[k]))
        && digits_val(w, 0, w.len() as int) <= i32::MAX)
    ||| (w.len() >= 1 && (forall|k: int| 0 <= k < w.len() ==> is_word_char(#[trigger] w[k])))
}

/// The one token that a valid lexeme classifies to.
pub open spec fn token_of_lexeme(w: Seq<char>) -> SpecToken {
    if w.len() == 1 && is_punct(w[0]) {
        punct_token(w[0])
    } else if forall|k: int| 0 <= k < w.len() ==> is_digit(#[trigger] w[k]) {
        SpecToken::Const(digits_val(w, 0, w.len() as int))
    } else {
        match keyword_token(w) {
            Some(t) => t,
            None => SpecToken::Identifier(w),
        }
    }
}

/// The concatenation of the given lexemes, separated by single spaces.
pub open spec fn join_spaced(ws: Seq<Seq<char>>) -> Seq<char>
    decreases ws.len(),
{
    if ws.len() == 0 {
        Seq::empty()
    } else if ws.len() == 1 {
        ws[0]
    } else {
        ws[0] + seq![' '] + join_spaced(ws.drop_first())
    }
}

/// Scanning one valid lexeme standing at `[i, j)`, followed by a space or
/// by the end of the text, emits exactly its token and goes on after it.
proof fn lemma_scan_lexeme_at(s: Seq<char>, i: int, j: int, line: int)
    requires
        0 <= i < j <= s.len(),
        is_lexeme(s.subrange(i, j)),
        j < s.len() ==> s[j] == ' ',
    ensures
        scan_from(s, i, line) == scan_from(s, j, line).after_token(
            token_of_lexeme(s.subrange(i, j)),
        ),
{
    let w = s.subrange(i, j);
    if w.len() == 1 && is_punct(w[0]) {
        assert(s[i] == w[0]);
    } else if forall|k: int| 0 <= k < w.len() ==> is_digit(#[trigger] w[k]) {
        assert(forall|k: int| i <= k < j ==> is_digit(#[trigger] s[k])) by {
            assert(forall|k: int| i <= k < j ==> s[k] == w[k - i]);
        }
        lemma_digit_run_end_range(s, i, j);
        lemma_digits_val_subrange(s, i, j, i, j);
        assert(!(j < s.len() && is_word_char(s[j])));
    } else {
        assert(forall|k: int| i <= k < j ==> is_word_char(#[trigger] s[k])) by {
            assert(forall|k: int| i <= k < j ==> s[k] == w[k - i]);
        }
        lemma_word_run_end_range(s, i, j);
        assert(!is_punct(s[i]) && !is_blank(s[i]) && s[i] != '\n' && !is_digit(s[i]));
    }
}

/// The inductive core of [`lemma_scan_spaced_lexemes`]: from position `p`
/// on, the remaining text is the spaced concatenation of `ws`.
proof fn lemma_scan_spaced_from(s: Seq<char>, ws: Seq<Seq<char>>, p: int, line: int)
    requires
        0 <= p <= s.len(),
        s.subrange(p, s.len() as int) == join_spaced(ws),
        forall|k: int| 0 <= k < ws.len() ==> is_lexeme(#[trigger] ws[k]),
    ensures
        scan_from(s, p, line) == (ScanOutcome {
            tokens: ws.map_values(|w: Seq<char>| token_of_lexeme(w)),
            errors: Seq::empty(),
        }),
    decreases ws.len(),
{
    let tail = s.subrange(p, s.len() as int);
    if ws.len() == 0 {
        assert(p == s.len());
        assert(ws.map_values(|w: Seq<char>| token_of_lexeme(w)) =~= Seq::<SpecToken>::empty());
    } else {
        let w = ws[0];
        assert(is_lexeme(w));
        let j = p + w.len();
        if ws.len() == 1 {
            assert(tail == w);
            assert(j == s.len());
            assert(s.subrange(p, j) =~= w);
            lemma_scan_lexeme_at(s, p, j, line);
            assert(ws.map_values(|w: Seq<char>| token_of_lexeme(w)) =~= seq![
                token_of_lexeme(w),
            ]);
            assert(scan_from(s, p, line) =~~= (ScanOutcome {
                tokens: ws.map_values(|w: Seq<char>| token_of_lexeme(w)),
                errors: Seq::empty(),
            }));
        } else {
            let rest = ws.drop_first();
            assert(tail == w + seq![' '] + join_spaced(rest));
            assert(w.len() + 1 <= tail.len()) by {
                assert(join_spaced(rest).len() >= 0);
            }
            assert(j + 1 <= s.len());
            assert(s.subrange(p, j) =~= w) by {
                assert(forall|k: int| 0 <= k < w.len() ==> tail[k] == #[trigger] w[k]);
            }
            assert(s[j] == ' ') by {
                assert(tail[w.len() as int] == ' ');
            }
            lemma_scan_lexeme_at(s, p, j, line);
            assert(s.subrange(j + 1, s.len() as int) =~= join_spaced(rest)) by {
                assert(forall|k: int|
                    0 <= k < join_spaced(rest).len() ==> tail[w.len() + 1 + k]
                        == #[trigger] join_spaced(rest)[k]);
            }
            lemma_scan_spaced_from(s, rest, j + 1, line);
            assert(scan_from(s, j, line) == scan_from(s, j + 1, line));
            assert(ws.map_values(|w: Seq<char>| token_of_lexeme(w)) =~= seq![token_of_lexeme(w)]
                + rest.map_values(|w: Seq<char>| token_of_lexeme(w)));
            assert(scan_from(s, p, line) =~~= (ScanOutcome {
                tokens: ws.map_values(|w: Seq<char>| token_of_lexeme(w)),
                errors: Seq::empty(),
            }));
        }
    }
}

/// Text that is the concatenation of valid lexemes separated by single
/// spaces scans to exactly one token per lexeme, in order, with no
/// diagnostics.
pub proof fn lemma_scan_spaced_lexemes(ws: Seq<Seq<char>>, line: int)
    requires
        forall|k: int| 0 <= k < ws.len() ==> is_lexeme(#[trigger] ws[k]),
    ensures
        scan_from(join_spaced(ws), 0, line).errors.len() == 0,
        scan_from(join_spaced(ws), 0, line).tokens == ws.map_values(
            |w: Seq<char>| token_of_lexeme(w),
        ),
{
    let s = join_spaced(ws);
    assert(s.subrange(0, s.len() as int) =~= s);
    lemma_scan_spaced_from(s, ws, 0, line);
}

/// A single valid lexeme, alone, scans to exactly its one token: a keyword
/// yields its fixed keyword token, any other run of letters and underscores
/// yields one identifier carrying the full text — never a keyword token
/// followed by a remainder.
pub proof fn lemma_scan_single_lexeme(w: Seq<char>, line: int)
    requires
        is_lexeme(w),
    ensures
        scan_from(w, 0, line) == (ScanOutcome {
            tokens: seq![token_of_lexeme(w)],
            errors: Seq::empty(),
        }),
{
    let ws = seq![w];
    lemma_scan_spaced_lexemes(ws, line);
    assert(join_spaced(ws) == w);
    assert(ws.map_values(|v: Seq<char>| token_of_lexeme(v)) =~= seq![token_of_lexeme(w)]);
    assert(scan_from(w, 0, line) =~~= (ScanOutcome {
        tokens: seq![token_of_lexeme(w)],
        errors: Seq::empty(),
    }));
}

/// Maximal munch at a malformed number: when the maximal digit run starting
/// at `i` continues straight into a letter or underscore, the scan emits one
/// `Invalid number` diagnostic for the whole run — never a constant token
/// for the digits — and resumes right after the run.
pub proof fn lemma_digit_run_into_word(s: Seq<char>, i: int, line: int)
    requires
        0 <= i < s.len(),
        is_digit(s[i]),
        digit_run_end(s, i) < s.len(),
        is_word_char(s[digit_run_end(s, i)]),
    ensures
        scan_from(s, i, line) == scan_from(s, digit_run_end(s, i), line).after_error(
            SpecErr { line, message: crate::lexer::scanner::invalid_number_message() },
        ),
{
    lemma_digit_run_end(s, i);
}

} // verus!
