//! Spec-level definition of the tokenizer: character classes, scanning,
//! line/column accounting, and the token sequence an input denotes.
use vstd::prelude::*;

use crate::errors::SpecLexErr;
use crate::token::SpecToken;

verus! {

/// Whitespace separates tokens and is otherwise ignored.
pub open spec fn is_ws_char(c: char) -> bool {
    c == ' ' || c == '\t' || c == '\n' || c == '\r'
}

/// A decimal digit.
pub open spec fn is_digit_char(c: char) -> bool {
    48 <= c as u32 && c as u32 <= 57
}

/// An ASCII letter.
pub open spec fn is_letter_char(c: char) -> bool {
    (65 <= c as u32 && c as u32 <= 90) || (97 <= c as u32 && c as u32 <= 122)
}

/// A character that may begin an identifier.  The range 60..=63 covers
/// `<`, `=`, `>` and `?`.
pub open spec fn is_ident_start_char(c: char) -> bool {
    is_letter_char(c) || c == '!' || c == '$' || c == '%' || c == '&' || c == '*' || c == '/' || c
        == ':' || (60 <= c as u32 && c as u32 <= 63) || c == '_' || c == '^'
}

/// A character that may continue an identifier.  Unlike the start set it
/// admits digits, `-` and `+`, but not `&` or `^`.
pub open spec fn is_ident_cont_char(c: char) -> bool {
    is_letter_char(c) || is_digit_char(c) || c == '/' || c == '!' || c == '$' || c == '%' || c
        == '*' || c == ':' || (60 <= c as u32 && c as u32 <= 63) || c == '_' || c == '-' || c == '+'
}

/// The numeric value of a decimal digit character.
pub open spec fn digit_val(c: char) -> int {
    c as u32 - 48
}

/// How many newline characters a piece of text holds.
pub open spec fn count_newlines(s: Seq<char>) -> nat
    decreases s.len(),
{
    if s.len() == 0 {
        0
    } else {
        count_newlines(s.drop_last()) + (if s.last() == '\n' {
            1nat
        } else {
            0nat
        })
    }
}

/// The 1-based line number of the character position `i`: one more than
/// the number of newlines strictly before it.
pub open spec fn spec_line_at(s: Seq<char>, i: int) -> int {
    1 + count_newlines(s.take(i)) as int
}

pub proof fn lemma_line_at_zero(s: Seq<char>)
    ensures
        spec_line_at(s, 0) == 1,
{
    assert(s.take(0) =~= Seq::<char>::empty());
}

pub proof fn lemma_line_at_step(s: Seq<char>, i: int)
    requires
        0 <= i < s.len(),
    ensures
        spec_line_at(s, i + 1) == spec_line_at(s, i) + (if s[i] == '\n' {
            1int
        } else {
            0int
        }),
{
    assert(s.take(i + 1).drop_last() =~= s.take(i));
    assert(s.take(i + 1).last() == s[i]);
}

/// The first position at or after `i` that does not hold a digit.
pub open spec fn scan_digits(s: Seq<char>, i: int) -> int
    decreases s.len() - i,
    when 0 <= i <= s.len()
{
    if i < s.len() && is_digit_char(s[i]) {
        scan_digits(s, i + 1)
    } else {
        i
    }
}

pub proof fn lemma_scan_digits(s: Seq<char>, i: int)
    requires
        0 <= i <= s.len(),
    ensures
        i <= scan_digits(s, i) <= s.len(),
        forall|k: int| i <= k < scan_digits(s, i) ==> is_digit_char(s[k]),
        scan_digits(s, i) < s.len() ==> !is_digit_char(s[scan_digits(s, i)]),
    decreases s.len() - i,
{
    if i < s.len() && is_digit_char(s[i]) {
        lemma_scan_digits(s, i + 1);
    }
}

pub proof fn lemma_scan_digits_is(s: Seq<char>, i: int, j: int)
    requires
        0 <= i <= j <= s.len(),
        forall|k: int| i <= k < j ==> is_digit_char(s[k]),
        j == s.len() || !is_digit_char(s[j]),
    ensures
        scan_digits(s, i) == j,
    decreases j - i,
{
    if i < j {
        lemma_scan_digits_is(s, i + 1, j);
    }
}

/// The first position at or after `i` that cannot continue an identifier.
pub open spec fn scan_ident(s: Seq<char>, i: int) -> int
    decreases s.len() - i,
    when 0 <= i <= s.len()
{
    if i < s.len() && is_ident_cont_char(s[i]) {
        scan_ident(s, i + 1)
    } else {
        i
    }
}

pub proof fn lemma_scan_ident(s: Seq<char>, i: int)
    requires
        0 <= i <= s.len(),
    ensures
        i <= scan_ident(s, i) <= s.len(),
        forall|k: int| i <= k < scan_ident(s, i) ==> is_ident_cont_char(s[k]),
        scan_ident(s, i) < s.len() ==> !is_ident_cont_char(s[scan_ident(s, i)]),
    decreases s.len() - i,
{
    if i < s.len() && is_ident_cont_char(s[i]) {
        lemma_scan_ident(s, i + 1);
    }
}

pub proof fn lemma_scan_ident_is(s: Seq<char>, i: int, j: int)
    requires
        0 <= i <= j <= s.len(),
        forall|k: int| i <= k < j ==> is_ident_cont_char(s[k]),
        j == s.len() || !is_ident_cont_char(s[j]),
    ensures
        scan_ident(s, i) == j,
    decreases j - i,
{
    if i < j {
        lemma_scan_ident_is(s, i + 1, j);
    }
}

/// The first position at or after `i` that holds a closing double quote,
/// or the end of the input if none does.
pub open spec fn scan_string(s: Seq<char>, i: int) -> int
    decreases s.len() - i,
    when 0 <= i <= s.len()
{
    if i < s.len() && s[i] != '"' {
        scan_string(s, i + 1)
    } else {
        i
    }
}

pub proof fn lemma_scan_string(s: Seq<char>, i: int)
    requires
        0 <= i <= s.len(),
    ensures
        i <= scan_string(s, i) <= s.len(),
        forall|k: int| i <= k < scan_string(s, i) ==> s[k] != '"',
        scan_string(s, i) < s.len() ==> s[scan_string(s, i)] == '"',
    decreases s.len() - i,
{
    if i < s.len() && s[i] != '"' {
        lemma_scan_string(s, i + 1);
    }
}

pub proof fn lemma_scan_string_is(s: Seq<char>, i: int, j: int)
    requires
        0 <= i <= j <= s.len(),
        forall|k: int| i <= k < j ==> s[k] != '"',
        j == s.len() || s[j] == '"',
    ensures
        scan_string(s, i) == j,
    decreases j - i,
{
    if i < j {
        lemma_scan_string_is(s, i + 1, j);
    }
}

/// The value of the digit run `s[i .. j]` read as a decimal number.
pub open spec fn digits_value(s: Seq<char>, i: int, j: int) -> int
    decreases j - i,
    when i <= j
{
    if j <= i {
        0
    } else {
        digits_value(s, i, j - 1) * 10 + digit_val(s[j - 1])
    }
}

pub proof fn lemma_digits_value_nonneg(s: Seq<char>, i: int, j: int)
    requires
        i <= j,
        forall|k: int| i <= k < j ==> is_digit_char(s[k]),
    ensures
        digits_value(s, i, j) >= 0,
    decreases j - i,
{
    if i < j {
        lemma_digits_value_nonneg(s, i, j - 1);
    }
}

/// The escaped form of a character inside a quoted-character message.
pub open spec fn spec_char_escaped(c: char) -> Seq<char> {
    if c == '\n' {
        seq!['\\', 'n']
    } else if c == '\r' {
        seq!['\\', 'r']
    } else if c == '\t' {
        seq!['\\', 't']
    } else if c == '\\' {
        seq!['\\', '\\']
    } else if c == '\'' {
        seq!['\\', '\'']
    } else {
        seq![c]
    }
}

/// A character shown between single quotes, with escapes.
pub open spec fn spec_char_quoted(c: char) -> Seq<char> {
    seq!['\''] + spec_char_escaped(c) + seq!['\'']
}

/// Message for a character that no token may begin with.
pub open spec fn msg_unexpected_char(c: char) -> Seq<char> {
    "Unexpected character: "@ + seq![c]
}

/// Message for a character that follows a token where whitespace or a
/// closing paren was required.
pub open spec fn msg_bad_delim(c: char) -> Seq<char> {
    "Unexpected symbol '"@ + seq![c] + "'. Expected white space or closing paren."@
}

/// Message for a character other than `t` or `f` after `#`.
pub open spec fn msg_bad_bool(c: char) -> Seq<char> {
    "Unexpected character when looking for t/f: "@ + spec_char_quoted(c)
}

/// Message for an integer literal whose magnitude does not fit.
pub open spec fn msg_int_too_large() -> Seq<char> {
    "Integer literal is too large"@
}

/// Prefixes a token run onto the outcome of tokenizing the rest.
pub open spec fn tok_prepend(
    pre: Seq<SpecToken>,
    r: Result<Seq<SpecToken>, SpecLexErr>,
) -> Result<Seq<SpecToken>, SpecLexErr> {
    match r {
        Ok(ts) => Ok(pre + ts),
        Err(e) => Err(e),
    }
}

pub proof fn lemma_tok_prepend_assoc(
    a: Seq<SpecToken>,
    b: Seq<SpecToken>,
    r: Result<Seq<SpecToken>, SpecLexErr>,
)
    ensures
        tok_prepend(a, tok_prepend(b, r)) == tok_prepend(a + b, r),
{
    match r {
        Ok(ts) => {
            assert(a + (b + ts) =~= (a + b) + ts);
        },
        Err(_) => {},
    }
}

/// The tokens of the input from position `i` on, or the first lexical
/// error.  This is the defining specification of the tokenizer.
pub open spec fn spec_tokenize_from(s: Seq<char>, i: int) -> Result<Seq<SpecToken>, SpecLexErr>
    decreases s.len() - i, 1int,
    when 0 <= i <= s.len()
{
    if i >= s.len() {
        Ok(Seq::empty())
    } else {
        let c = s[i];
        if c == '(' {
            tok_prepend(seq![SpecToken::OpenParen], spec_tokenize_from(s, i + 1))
        } else if c == ')' {
            tok_prepend(seq![SpecToken::CloseParen], spec_tokenize_from(s, i + 1))
        } else if c == '+' || c == '-' {
            if i + 1 < s.len() && is_digit_char(s[i + 1]) {
                proof {
                    lemma_scan_digits(s, i + 1);
                }
                let j = scan_digits(s, i + 1);
                let v = digits_value(s, i + 1, j);
                // A leading minus admits one more of magnitude: the least
                // representable integer has no positive counterpart.
                let bound = if c == '-' {
                    isize::MAX as int + 1
                } else {
                    isize::MAX as int
                };
                if v > bound {
                    Err(
                        SpecLexErr::InvalidSymbol(
                            spec_line_at(s, i + 1),
                            i + 2,
                            msg_int_too_large(),
                        ),
                    )
                } else {
                    tok_prepend(
                        seq![
                            SpecToken::Integer(
                                if c == '-' {
                                    -v
                                } else {
                                    v
                                },
                            ),
                        ],
                        spec_after_token(s, j),
                    )
                }
            } else {
                tok_prepend(seq![SpecToken::Identifier(seq![c])], spec_after_token(s, i + 1))
            }
        } else if c == '#' {
            if i + 1 >= s.len() {
                Err(SpecLexErr::UnexpectedEOL)
            } else if s[i + 1] == 't' {
                tok_prepend(seq![SpecToken::Boolean(true)], spec_after_token(s, i + 2))
            } else if s[i + 1] == 'f' {
                tok_prepend(seq![SpecToken::Boolean(false)], spec_after_token(s, i + 2))
            } else {
                Err(SpecLexErr::InvalidSymbol(spec_line_at(s, i + 1), i + 2, msg_bad_bool(s[i + 1])))
            }
        } else if is_ident_start_char(c) {
            // The start character always belongs to the identifier; the scan
            // then continues over the continuation set.
            proof {
                lemma_scan_ident(s, i + 1);
            }
            let j = scan_ident(s, i + 1);
            tok_prepend(seq![SpecToken::Identifier(s.subrange(i, j))], spec_after_token(s, j))
        } else if is_digit_char(c) {
            proof {
                lemma_scan_digits(s, i);
            }
            let j = scan_digits(s, i);
            let v = digits_value(s, i, j);
            if v > isize::MAX as int {
                Err(SpecLexErr::InvalidSymbol(spec_line_at(s, i), i + 1, msg_int_too_large()))
            } else {
                tok_prepend(seq![SpecToken::Integer(v)], spec_after_token(s, j))
            }
        } else if c == '"' {
            proof {
                lemma_scan_string(s, i + 1);
            }
            let j = scan_string(s, i + 1);
            if j >= s.len() {
                Err(SpecLexErr::StringNotClosed)
            } else {
                tok_prepend(
                    seq![SpecToken::StringToken(s.subrange(i + 1, j))],
                    spec_after_token(s, j + 1),
                )
            }
        } else if is_ws_char(c) {
            spec_tokenize_from(s, i + 1)
        } else {
            Err(SpecLexErr::InvalidSymbol(spec_line_at(s, i), i + 1, msg_unexpected_char(c)))
        }
    }
}

/// After a non-delimiter token ends at position `j`, the next character
/// must be whitespace, a closing paren, or the end of the input.
pub open spec fn spec_after_token(s: Seq<char>, j: int) -> Result<Seq<SpecToken>, SpecLexErr>
    decreases s.len() - j, 0int,
    when 0 <= j <= s.len()
{
    if j >= s.len() {
        Ok(Seq::empty())
    } else if s[j] == ')' {
        tok_prepend(seq![SpecToken::CloseParen], spec_tokenize_from(s, j + 1))
    } else if is_ws_char(s[j]) {
        spec_tokenize_from(s, j + 1)
    } else {
        Err(SpecLexErr::InvalidSymbol(spec_line_at(s, j), j + 1, msg_bad_delim(s[j])))
    }
}

/// The tokens of a whole input, or its first lexical error.
pub open spec fn spec_tokenize(s: Seq<char>) -> Result<Seq<SpecToken>, SpecLexErr> {
    spec_tokenize_from(s, 0)
}

} // verus!
