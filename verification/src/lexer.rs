//! The tokenizer: a cursor over the input characters and the scanning
//! routines for each token shape, verified against the spec tokenizer.
use vstd::prelude::*;

use crate::errors::SpecLexErr;
use crate::errors::SyntaxError;
use crate::errors::syntax_error_view;
use crate::lex_spec::count_newlines;
use crate::lex_spec::digit_val;
use crate::lex_spec::digits_value;
use crate::lex_spec::is_digit_char;
use crate::lex_spec::is_ident_cont_char;
use crate::lex_spec::is_ident_start_char;
use crate::lex_spec::is_letter_char;
use crate::lex_spec::is_ws_char;
use crate::lex_spec::lemma_line_at_step;
use crate::lex_spec::lemma_line_at_zero;
use crate::lex_spec::lemma_scan_digits;
use crate::lex_spec::lemma_scan_digits_is;
use crate::lex_spec::lemma_scan_ident;
use crate::lex_spec::lemma_scan_ident_is;
use crate::lex_spec::lemma_scan_string;
use crate::lex_spec::lemma_scan_string_is;
use crate::lex_spec::lemma_digits_value_nonneg;
use crate::lex_spec::lemma_tok_prepend_assoc;
use crate::lex_spec::msg_bad_bool;
use crate::lex_spec::msg_bad_delim;
use crate::lex_spec::msg_int_too_large;
use crate::lex_spec::msg_unexpected_char;
use crate::lex_spec::scan_digits;
use crate::lex_spec::scan_ident;
use crate::lex_spec::scan_string;
use crate::lex_spec::spec_after_token;
use crate::lex_spec::spec_char_quoted;
use crate::lex_spec::spec_line_at;
use crate::lex_spec::spec_tokenize;
use crate::lex_spec::spec_tokenize_from;
use crate::lex_spec::tok_prepend;
use crate::strutil::push_char;
use crate::token::SpecToken;
use crate::token::Token;
use crate::token::token_view;
use crate::token::tokens_view;

verus! {

proof fn lemma_count_newlines_le(s: Seq<char>)
    ensures
        count_newlines(s) <= s.len(),
    decreases s.len(),
{
    if s.len() > 0 {
        lemma_count_newlines_le(s.drop_last());
    }
}

fn is_ws_exec(c: char) -> (r: bool)
    ensures
        r == is_ws_char(c),
{
    c == ' ' || c == '\t' || c == '\n' || c == '\r'
}

fn is_digit_exec(c: char) -> (r: bool)
    ensures
        r == is_digit_char(c),
{
    let u = c as u32;
    48 <= u && u <= 57
}

fn is_letter_exec(c: char) -> (r: bool)
    ensures
        r == is_letter_char(c),
{
    let u = c as u32;
    (65 <= u && u <= 90) || (97 <= u && u <= 122)
}

fn is_ident_start_exec(c: char) -> (r: bool)
    ensures
        r == is_ident_start_char(c),
{
    let u = c as u32;
    is_letter_exec(c) || c == '!' || c == '$' || c == '%' || c == '&' || c == '*' || c == '/' || c
        == ':' || (60 <= u && u <= 63) || c == '_' || c == '^'
}

fn is_ident_cont_exec(c: char) -> (r: bool)
    ensures
        r == is_ident_cont_char(c),
{
    let u = c as u32;
    is_letter_exec(c) || is_digit_exec(c) || c == '/' || c == '!' || c == '$' || c == '%' || c
        == '*' || c == ':' || (60 <= u && u <= 63) || c == '_' || c == '-' || c == '+'
}

/// A character shown between single quotes with the common escapes, as it
/// appears inside a tokenizer message.
fn char_quoted(c: char) -> (r: String)
    ensures
        r@ == spec_char_quoted(c),
{
    proof {
        reveal_strlit("'\\n'");
        reveal_strlit("'\\r'");
        reveal_strlit("'\\t'");
        reveal_strlit("'\\\\'");
        reveal_strlit("'\\''");
        reveal_strlit("'");
    }
    if c == '\n' {
        let r = String::from_str("'\\n'");
        proof {
            assert(r@ =~= spec_char_quoted(c));
        }
        r
    } else if c == '\r' {
        let r = String::from_str("'\\r'");
        proof {
            assert(r@ =~= spec_char_quoted(c));
        }
        r
    } else if c == '\t' {
        let r = String::from_str("'\\t'");
        proof {
            assert(r@ =~= spec_char_quoted(c));
        }
        r
    } else if c == '\\' {
        let r = String::from_str("'\\\\'");
        proof {
            assert(r@ =~= spec_char_quoted(c));
        }
        r
    } else if c == '\'' {
        let r = String::from_str("'\\''");
        proof {
            assert(r@ =~= spec_char_quoted(c));
        }
        r
    } else {
        let mut r = String::from_str("'");
        push_char(&mut r, c);
        push_char(&mut r, '\'');
        proof {
            assert(r@ =~= spec_char_quoted(c));
        }
        r
    }
}

/// A cursor over the characters of one input, tracking the 1-based line
/// number of the position it stands at.
pub struct LexerIterator {
    chars: Vec<char>,
    pos: usize,
    line: usize,
}

impl LexerIterator {
    /// The characters of the input being tokenized.
    pub closed spec fn text(&self) -> Seq<char> {
        self.chars@
    }

    /// The position the cursor stands at.
    pub closed spec fn cursor(&self) -> int {
        self.pos as int
    }

    /// The 1-based line number of the cursor position.
    pub closed spec fn line_no(&self) -> int {
        self.line as int
    }

    /// The cursor is inside the text and the line count matches the
    /// newlines already passed.
    pub open spec fn wf(&self) -> bool {
        &&& 0 <= self.cursor() <= self.text().len()
        &&& self.text().len() < usize::MAX
        &&& self.line_no() == spec_line_at(self.text(), self.cursor())
    }

    pub fn new(input: &str) -> (it: LexerIterator)
        requires
            input@.len() < usize::MAX,
        ensures
            it.wf(),
            it.text() == input@,
            it.cursor() == 0,
            it.line_no() == 1,
    {
        let n = input.unicode_len();
        let mut chars: Vec<char> = Vec::new();
        let mut i: usize = 0;
        while i < n
            invariant
                n == input@.len(),
                i <= n,
                chars@ =~= input@.take(i as int),
            decreases n - i,
        {
            chars.push(input.get_char(i));
            proof {
                assert(chars@ =~= input@.take(i + 1 as int));
            }
            i += 1;
        }
        proof {
            assert(input@.take(n as int) =~= input@);
            lemma_line_at_zero(input@);
        }
        LexerIterator { chars, pos: 0, line: 1 }
    }

    /// The current character and its position, if any input is left.
    pub fn peek(&self) -> (r: Option<(usize, char)>)
        requires
            self.wf(),
        ensures
            match r {
                Some(p) => self.cursor() < self.text().len() && p.0 == self.cursor() && p.1
                    == self.text()[self.cursor()],
                None => self.cursor() == self.text().len(),
            },
    {
        if self.pos < self.chars.len() {
            Some((self.pos, self.chars[self.pos]))
        } else {
            None
        }
    }

    /// Consumes one character, keeping the line count in step.
    pub fn next(&mut self) -> (r: Option<(usize, char)>)
        requires
            old(self).wf(),
        ensures
            final(self).wf(),
            final(self).text() == old(self).text(),
            match r {
                Some(p) => old(self).cursor() < old(self).text().len() && final(self).cursor()
                    == old(self).cursor() + 1 && p.0 == old(self).cursor() && p.1 == old(
                    self,
                ).text()[old(self).cursor()],
                None => old(self).cursor() == old(self).text().len() && final(self).cursor() == old(
                    self,
                ).cursor() && final(self).line_no() == old(self).line_no(),
            },
    {
        if self.pos < self.chars.len() {
            let c = self.chars[self.pos];
            let i = self.pos;
            proof {
                lemma_count_newlines_le(self.text().take(self.pos as int));
                lemma_line_at_step(self.text(), self.pos as int);
            }
            if c == '\n' {
                self.line = self.line + 1;
            }
            self.pos = self.pos + 1;
            Some((i, c))
        } else {
            None
        }
    }

    /// Builds the rejection for a character no token may begin with.
    pub fn invalid_symbol(&self, index: usize, chr: char) -> (r: Result<Vec<Token>, SyntaxError>)
        requires
            index < usize::MAX,
        ensures
            r matches Err(e) && syntax_error_view(e) == SpecLexErr::InvalidSymbol(
                self.line_no(),
                index + 1,
                msg_unexpected_char(chr),
            ),
    {
        proof {
            reveal_strlit("Unexpected character: ");
        }
        let mut msg = String::from_str("Unexpected character: ");
        push_char(&mut msg, chr);
        proof {
            assert(msg@ =~= msg_unexpected_char(chr));
        }
        Err(SyntaxError::InvalidSymbol(self.line, index + 1, msg))
    }

    /// Consumes the current character into a token buffer.
    pub fn next_char(&mut self, chr: char, buffer: &mut String)
        requires
            old(self).wf(),
            old(self).cursor() < old(self).text().len(),
            chr == old(self).text()[old(self).cursor()],
        ensures
            final(self).wf(),
            final(self).text() == old(self).text(),
            final(self).cursor() == old(self).cursor() + 1,
            final(buffer)@ == old(buffer)@.push(chr),
    {
        push_char(buffer, chr);
        self.next();
    }

    fn peek_is_digit(&self) -> (r: bool)
        requires
            self.wf(),
        ensures
            r == (self.cursor() < self.text().len() && is_digit_char(
                self.text()[self.cursor()],
            )),
    {
        if self.pos < self.chars.len() {
            is_digit_exec(self.chars[self.pos])
        } else {
            false
        }
    }

    fn peek_is_ident_cont(&self) -> (r: bool)
        requires
            self.wf(),
        ensures
            r == (self.cursor() < self.text().len() && is_ident_cont_char(
                self.text()[self.cursor()],
            )),
    {
        if self.pos < self.chars.len() {
            is_ident_cont_exec(self.chars[self.pos])
        } else {
            false
        }
    }

    fn peek_in_string(&self) -> (r: bool)
        requires
            self.wf(),
        ensures
            r == (self.cursor() < self.text().len() && self.text()[self.cursor()] != '"'),
    {
        if self.pos < self.chars.len() {
            self.chars[self.pos] != '"'
        } else {
            false
        }
    }

    /// Scans the digit run at the cursor into an integer token with the
    /// given sign, rejecting a magnitude that does not fit the integer type.
    pub fn next_number(&mut self, sign: char) -> (r: Result<Token, SyntaxError>)
        requires
            old(self).wf(),
            old(self).cursor() < old(self).text().len(),
            is_digit_char(old(self).text()[old(self).cursor()]),
            sign == '+' || sign == '-',
        ensures
            final(self).wf(),
            final(self).text() == old(self).text(),
            final(self).cursor() == scan_digits(old(self).text(), old(self).cursor()),
            ({
                let s = old(self).text();
                let start = old(self).cursor();
                let v = digits_value(s, start, scan_digits(s, start));
                let bound = if sign == '-' {
                    isize::MAX as int + 1
                } else {
                    isize::MAX as int
                };
                if v <= bound {
                    r matches Ok(t) && token_view(t) == SpecToken::Integer(
                        if sign == '-' {
                            -v
                        } else {
                            v
                        },
                    )
                } else {
                    r matches Err(e) && syntax_error_view(e) == SpecLexErr::InvalidSymbol(
                        spec_line_at(s, start),
                        start + 1,
                        msg_int_too_large(),
                    )
                }
            }),
    {
        let ghost s = self.text();
        let ghost start = self.cursor();
        let line0 = self.line;
        let start_pos = self.pos;
        let limit: u128 = if sign == '-' {
            (isize::MAX as u128) + 1
        } else {
            isize::MAX as u128
        };
        let mut acc: u128 = 0;
        let mut over: bool = false;
        while self.peek_is_digit()
            invariant
                self.wf(),
                self.text() == s,
                0 <= start <= self.cursor() <= s.len(),
                start_pos as int == start,
                line0 as int == spec_line_at(s, start),
                limit as int == (if sign == '-' {
                    isize::MAX as int + 1
                } else {
                    isize::MAX as int
                }),
                forall|k: int| start <= k < self.cursor() ==> is_digit_char(s[k]),
                over == (digits_value(s, start, self.cursor()) > limit as int),
                !over ==> acc as int == digits_value(s, start, self.cursor()) && acc <= limit,
            decreases s.len() - self.cursor(),
        {
            let c = self.chars[self.pos];
            let d = (c as u32 - 48) as u128;
            let ghost p = self.cursor();
            proof {
                assert(digits_value(s, start, p + 1) == digits_value(s, start, p) * 10
                    + digit_val(s[p]));
                if over {
                    lemma_digits_value_nonneg(s, start, p);
                }
            }
            if !over {
                acc = acc * 10 + d;
                if acc > limit {
                    over = true;
                }
            }
            self.next();
        }
        proof {
            lemma_scan_digits_is(s, start, self.cursor());
        }
        if over {
            Err(
                SyntaxError::InvalidSymbol(
                    line0,
                    start_pos + 1,
                    String::from_str("Integer literal is too large"),
                ),
            )
        } else {
            if sign == '-' {
                let value: isize = if acc == (isize::MAX as u128) + 1 {
                    isize::MIN
                } else {
                    -(acc as isize)
                };
                Ok(Token::Integer(value))
            } else {
                Ok(Token::Integer(acc as isize))
            }
        }
    }

    /// Scans the `t` or `f` that must follow a `#`.
    pub fn next_boolean(&mut self) -> (r: Result<Token, SyntaxError>)
        requires
            old(self).wf(),
            old(self).cursor() < old(self).text().len(),
            old(self).text()[old(self).cursor()] == '#',
        ensures
            final(self).wf(),
            final(self).text() == old(self).text(),
            ({
                let s = old(self).text();
                let i = old(self).cursor();
                if i + 1 >= s.len() {
                    r matches Err(e) && syntax_error_view(e) == SpecLexErr::UnexpectedEOL
                } else if s[i + 1] == 't' {
                    r matches Ok(t) && token_view(t) == SpecToken::Boolean(true)
                        && final(self).cursor() == i + 2
                } else if s[i + 1] == 'f' {
                    r matches Ok(t) && token_view(t) == SpecToken::Boolean(false)
                        && final(self).cursor() == i + 2
                } else {
                    r matches Err(e) && syntax_error_view(e) == SpecLexErr::InvalidSymbol(
                        spec_line_at(s, i + 1),
                        i + 2,
                        msg_bad_bool(s[i + 1]),
                    )
                }
            }),
    {
        self.next();
        match self.peek() {
            None => Err(SyntaxError::UnexpectedEOL),
            Some((index, c)) => {
                if c == 't' {
                    self.next();
                    Ok(Token::Boolean(true))
                } else if c == 'f' {
                    self.next();
                    Ok(Token::Boolean(false))
                } else {
                    proof {
                        reveal_strlit("Unexpected character when looking for t/f: ");
                    }
                    let mut msg = String::from_str("Unexpected character when looking for t/f: ");
                    let quoted = char_quoted(c);
                    msg.append(quoted.as_str());
                    proof {
                        assert(msg@ =~= msg_bad_bool(c));
                    }
                    Err(SyntaxError::InvalidSymbol(self.line, index + 1, msg))
                }
            },
        }
    }

    /// Scans the identifier at the cursor: the character there always
    /// belongs to it, and the scan then consumes identifier continuation
    /// characters.
    pub fn next_identifier(&mut self) -> (r: Result<Token, SyntaxError>)
        requires
            old(self).wf(),
            old(self).cursor() < old(self).text().len(),
        ensures
            final(self).wf(),
            final(self).text() == old(self).text(),
            final(self).cursor() == scan_ident(old(self).text(), old(self).cursor() + 1),
            r matches Ok(t) && token_view(t) == SpecToken::Identifier(
                old(self).text().subrange(old(self).cursor(), final(self).cursor()),
            ),
    {
        let ghost s = self.text();
        let ghost start = self.cursor();
        let mut id_buffer = String::new();
        let first = self.chars[self.pos];
        self.next_char(first, &mut id_buffer);
        proof {
            assert(id_buffer@ =~= s.subrange(start, start + 1));
        }
        while self.peek_is_ident_cont()
            invariant
                self.wf(),
                self.text() == s,
                0 <= start < start + 1 <= self.cursor() <= s.len(),
                forall|k: int| start + 1 <= k < self.cursor() ==> is_ident_cont_char(s[k]),
                id_buffer@ == s.subrange(start, self.cursor()),
            decreases s.len() - self.cursor(),
        {
            let chr = self.chars[self.pos];
            let ghost p = self.cursor();
            self.next_char(chr, &mut id_buffer);
            proof {
                assert(id_buffer@ =~= s.subrange(start, p + 1));
            }
        }
        proof {
            lemma_scan_ident_is(s, start + 1, self.cursor());
        }
        Ok(Token::Identifier(id_buffer))
    }

    /// Scans a string literal: everything up to the closing double quote,
    /// verbatim; reaching the end of the input first is an error.
    pub fn next_string(&mut self) -> (r: Result<Token, SyntaxError>)
        requires
            old(self).wf(),
            old(self).cursor() < old(self).text().len(),
            old(self).text()[old(self).cursor()] == '"',
        ensures
            final(self).wf(),
            final(self).text() == old(self).text(),
            ({
                let s = old(self).text();
                let i = old(self).cursor();
                let j = scan_string(s, i + 1);
                if j < s.len() {
                    r matches Ok(t) && token_view(t) == SpecToken::StringToken(
                        s.subrange(i + 1, j),
                    ) && final(self).cursor() == j + 1
                } else {
                    r matches Err(e) && syntax_error_view(e) == SpecLexErr::StringNotClosed
                }
            }),
    {
        let ghost s = self.text();
        let ghost start = self.cursor();
        self.next();
        let mut string_buffer = String::new();
        while self.peek_in_string()
            invariant
                self.wf(),
                self.text() == s,
                0 <= start < start + 1 <= self.cursor() <= s.len(),
                forall|k: int| start + 1 <= k < self.cursor() ==> s[k] != '"',
                string_buffer@ == s.subrange(start + 1, self.cursor()),
            decreases s.len() - self.cursor(),
        {
            let chr = self.chars[self.pos];
            let ghost p = self.cursor();
            self.next_char(chr, &mut string_buffer);
            proof {
                assert(string_buffer@ =~= s.subrange(start + 1, p + 1));
            }
        }
        proof {
            lemma_scan_string_is(s, start + 1, self.cursor());
        }
        if self.pos < self.chars.len() {
            self.next();
            Ok(Token::StringToken(string_buffer))
        } else {
            Err(SyntaxError::StringNotClosed)
        }
    }

    /// After a token, the next character must be whitespace or a closing
    /// paren; the paren is consumed and handed back as a token.
    pub fn next_delim(&mut self) -> (r: Result<Option<Token>, SyntaxError>)
        requires
            old(self).wf(),
        ensures
            final(self).wf(),
            final(self).text() == old(self).text(),
            ({
                let s = old(self).text();
                let j = old(self).cursor();
                if j == s.len() {
                    r matches Ok(o) && o is None && final(self).cursor() == j
                } else if s[j] == ')' {
                    r matches Ok(o) && (o matches Some(t) && token_view(t)
                        == SpecToken::CloseParen) && final(self).cursor() == j + 1
                } else if is_ws_char(s[j]) {
                    r matches Ok(o) && o is None && final(self).cursor() == j
                } else {
                    r matches Err(e) && syntax_error_view(e) == SpecLexErr::InvalidSymbol(
                        spec_line_at(s, j),
                        j + 1,
                        msg_bad_delim(s[j]),
                    ) && final(self).cursor() == j
                }
            }),
    {
        match self.peek() {
            None => Ok(None),
            Some((index, c)) => {
                if c == ')' {
                    self.next();
                    Ok(Some(Token::CloseParen))
                } else if is_ws_exec(c) {
                    Ok(None)
                } else {
                    proof {
                        reveal_strlit("Unexpected symbol '");
                        reveal_strlit("'. Expected white space or closing paren.");
                    }
                    let mut msg = String::from_str("Unexpected symbol '");
                    push_char(&mut msg, c);
                    msg.append("'. Expected white space or closing paren.");
                    proof {
                        assert(msg@ =~= msg_bad_delim(c));
                    }
                    Err(SyntaxError::InvalidSymbol(self.line, index + 1, msg))
                }
            },
        }
    }

    fn has_more(&self) -> (r: bool)
        requires
            self.wf(),
        ensures
            r == (self.cursor() < self.text().len()),
    {
        self.pos < self.chars.len()
    }
}

proof fn lemma_tok_prepend_nil(r: Result<Seq<SpecToken>, SpecLexErr>)
    ensures
        tok_prepend(Seq::empty(), r) == r,
{
    match r {
        Ok(ts) => {
            assert(Seq::<SpecToken>::empty() + ts =~= ts);
        },
        Err(_) => {},
    }
}

proof fn lemma_tokens_view_push(ts: Seq<Token>, t: Token)
    ensures
        tokens_view(ts.push(t)) == tokens_view(ts) + seq![token_view(t)],
{
    assert(tokens_view(ts.push(t)) =~= tokens_view(ts) + seq![token_view(t)]);
}

/// One invariant-preserving step: the tokens already taken, prepended to
/// what the rest of the input denotes, stay equal to the whole.
proof fn lemma_tokenize_step(
    s: Seq<char>,
    pre: Seq<SpecToken>,
    p0: int,
    mid: Seq<SpecToken>,
    p1: int,
)
    requires
        spec_tokenize(s) == tok_prepend(pre, spec_tokenize_from(s, p0)),
        spec_tokenize_from(s, p0) == tok_prepend(mid, spec_tokenize_from(s, p1)),
    ensures
        spec_tokenize(s) == tok_prepend(pre + mid, spec_tokenize_from(s, p1)),
{
    lemma_tok_prepend_assoc(pre, mid, spec_tokenize_from(s, p1));
}

/// Performs the delimiter check that must follow a completed token,
/// pushing the closing paren it may consume.
fn delim_step(it: &mut LexerIterator, tokens: &mut Vec<Token>) -> (r: Result<(), SyntaxError>)
    requires
        old(it).wf(),
    ensures
        final(it).wf(),
        final(it).text() == old(it).text(),
        match r {
            Ok(u) => tok_prepend(
                tokens_view(old(tokens)@),
                spec_after_token(old(it).text(), old(it).cursor()),
            ) == tok_prepend(
                tokens_view(final(tokens)@),
                spec_tokenize_from(old(it).text(), final(it).cursor()),
            ) && final(it).cursor() >= old(it).cursor() && (final(it).cursor() == old(
                it,
            ).cursor() ==> old(it).cursor() == old(it).text().len() || is_ws_char(
                old(it).text()[old(it).cursor()],
            )),
            Err(e) => spec_after_token(old(it).text(), old(it).cursor()) == Err::<
                Seq<SpecToken>,
                SpecLexErr,
            >(syntax_error_view(e)),
        },
{
    let ghost s = it.text();
    let ghost j = it.cursor();
    match it.next_delim() {
        Ok(Some(token)) => {
            let ghost pre = tokens_view(tokens@);
            tokens.push(token);
            proof {
                lemma_tokens_view_push(old(tokens)@, token);
                if j == s.len() {
                } else if s[j] == ')' {
                    lemma_tok_prepend_assoc(
                        pre,
                        seq![token_view(token)],
                        spec_tokenize_from(s, j + 1),
                    );
                }
            }
            Ok(())
        },
        Ok(None) => {
            proof {
                if j < s.len() && is_ws_char(s[j]) {
                    assert(spec_after_token(s, j) == spec_tokenize_from(s, j + 1));
                    assert(spec_tokenize_from(s, j) == spec_tokenize_from(s, j + 1));
                }
            }
            Ok(())
        },
        Err(e) => Err(e),
    }
}

/// Converts program text into its token sequence, or reports the first
/// lexical error, exactly as the spec tokenizer prescribes.
#[verifier::rlimit(80)]
pub fn tokenize(input: &str) -> (r: Result<Vec<Token>, SyntaxError>)
    requires
        input@.len() < usize::MAX,
    ensures
        match r {
            Ok(toks) => spec_tokenize(input@) == Ok::<Seq<SpecToken>, SpecLexErr>(
                tokens_view(toks@),
            ),
            Err(e) => spec_tokenize(input@) == Err::<Seq<SpecToken>, SpecLexErr>(
                syntax_error_view(e),
            ),
        },
{
    let ghost s = input@;
    let mut tokens: Vec<Token> = Vec::new();
    let mut it = LexerIterator::new(input);
    proof {
        assert(tokens_view(tokens@) =~= Seq::<SpecToken>::empty());
        lemma_tok_prepend_nil(spec_tokenize_from(s, 0));
    }
    while it.has_more()
        invariant
            s == input@,
            it.wf(),
            it.text() == s,
            spec_tokenize(s) == tok_prepend(tokens_view(tokens@), spec_tokenize_from(s, it.cursor())),
        decreases s.len() - it.cursor(),
    {
        let ghost p0 = it.cursor();
        let ghost tv0 = tokens@;
        let ghost pre = tokens_view(tokens@);
        let (index, c) = match it.peek() {
            Some(pair) => pair,
            None => {
                proof {
                    assert(false);
                }
                (0, ' ')
            },
        };
        if c == '(' {
            tokens.push(Token::OpenParen);
            it.next();
            proof {
                lemma_tokens_view_push(tv0, Token::OpenParen);
                lemma_tokenize_step(s, pre, p0, seq![SpecToken::OpenParen], p0 + 1);
            }
        } else if c == ')' {
            tokens.push(Token::CloseParen);
            it.next();
            proof {
                lemma_tokens_view_push(tv0, Token::CloseParen);
                lemma_tokenize_step(s, pre, p0, seq![SpecToken::CloseParen], p0 + 1);
            }
        } else if c == '+' || c == '-' {
            it.next();
            let follows_digit = match it.peek() {
                Some((_, d)) => is_digit_exec(d),
                None => false,
            };
            if follows_digit {
                let token = match it.next_number(c) {
                    Ok(t) => t,
                    Err(e) => {
                        proof {
                            assert(spec_tokenize_from(s, p0) == Err::<
                                Seq<SpecToken>,
                                SpecLexErr,
                            >(syntax_error_view(e)));
                        }
                        return Err(e);
                    },
                };
                let ghost j = it.cursor();
                let ghost mid = seq![token_view(token)];
                tokens.push(token);
                proof {
                    lemma_tokens_view_push(tv0, token);
                    lemma_scan_digits(s, p0 + 1);
                    assert(spec_tokenize_from(s, p0) == tok_prepend(mid, spec_after_token(s, j)));
                }
                match delim_step(&mut it, &mut tokens) {
                    Ok(_) => {
                        proof {
                            lemma_tok_prepend_assoc(pre, mid, spec_after_token(s, j));
                        }
                    },
                    Err(e) => {
                        return Err(e);
                    },
                }
            } else {
                proof {
                    reveal_strlit("+");
                    reveal_strlit("-");
                }
                let token = if c == '+' {
                    Token::Identifier(String::from_str("+"))
                } else {
                    Token::Identifier(String::from_str("-"))
                };
                let ghost j = it.cursor();
                let ghost mid = seq![token_view(token)];
                tokens.push(token);
                proof {
                    assert(token_view(token) == SpecToken::Identifier(seq![c])) by {
                        assert("+"@ =~= seq!['+']);
                        assert("-"@ =~= seq!['-']);
                    }
                    lemma_tokens_view_push(tv0, token);
                    assert(spec_tokenize_from(s, p0) == tok_prepend(mid, spec_after_token(s, j)));
                }
                match delim_step(&mut it, &mut tokens) {
                    Ok(_) => {
                        proof {
                            lemma_tok_prepend_assoc(pre, mid, spec_after_token(s, j));
                        }
                    },
                    Err(e) => {
                        return Err(e);
                    },
                }
            }
        } else if c == '#' {
            let token = match it.next_boolean() {
                Ok(t) => t,
                Err(e) => {
                    proof {
                        assert(spec_tokenize_from(s, p0) == Err::<Seq<SpecToken>, SpecLexErr>(
                            syntax_error_view(e),
                        ));
                    }
                    return Err(e);
                },
            };
            let ghost j = it.cursor();
            let ghost mid = seq![token_view(token)];
            tokens.push(token);
            proof {
                lemma_tokens_view_push(tv0, token);
                assert(spec_tokenize_from(s, p0) == tok_prepend(mid, spec_after_token(s, j)));
            }
            match delim_step(&mut it, &mut tokens) {
                Ok(_) => {
                    proof {
                        lemma_tok_prepend_assoc(pre, mid, spec_after_token(s, j));
                    }
                },
                Err(e) => {
                    return Err(e);
                },
            }
        } else if is_ident_start_exec(c) {
            let token = match it.next_identifier() {
                Ok(t) => t,
                Err(e) => {
                    proof {
                        assert(false);
                    }
                    return Err(e);
                },
            };
            let ghost j = it.cursor();
            let ghost mid = seq![token_view(token)];
            tokens.push(token);
            proof {
                lemma_tokens_view_push(tv0, token);
                lemma_scan_ident(s, p0 + 1);
                assert(spec_tokenize_from(s, p0) == tok_prepend(mid, spec_after_token(s, j)));
            }
            match delim_step(&mut it, &mut tokens) {
                Ok(_) => {
                    proof {
                        lemma_tok_prepend_assoc(pre, mid, spec_after_token(s, j));
                        lemma_scan_ident(s, p0 + 1);
                    }
                },
                Err(e) => {
                    return Err(e);
                },
            }
        } else if is_digit_exec(c) {
            let token = match it.next_number('+') {
                Ok(t) => t,
                Err(e) => {
                    proof {
                        assert(spec_tokenize_from(s, p0) == Err::<Seq<SpecToken>, SpecLexErr>(
                            syntax_error_view(e),
                        ));
                    }
                    return Err(e);
                },
            };
            let ghost j = it.cursor();
            let ghost mid = seq![token_view(token)];
            tokens.push(token);
            proof {
                lemma_tokens_view_push(tv0, token);
                lemma_scan_digits(s, p0 + 1);
                assert(scan_digits(s, p0) == scan_digits(s, p0 + 1));
                assert(spec_tokenize_from(s, p0) == tok_prepend(mid, spec_after_token(s, j)));
            }
            match delim_step(&mut it, &mut tokens) {
                Ok(_) => {
                    proof {
                        lemma_tok_prepend_assoc(pre, mid, spec_after_token(s, j));
                    }
                },
                Err(e) => {
                    return Err(e);
                },
            }
        } else if c == '"' {
            let token = match it.next_string() {
                Ok(t) => t,
                Err(e) => {
                    proof {
                        assert(spec_tokenize_from(s, p0) == Err::<Seq<SpecToken>, SpecLexErr>(
                            syntax_error_view(e),
                        ));
                    }
                    return Err(e);
                },
            };
            let ghost j = it.cursor();
            let ghost mid = seq![token_view(token)];
            tokens.push(token);
            proof {
                lemma_tokens_view_push(tv0, token);
                lemma_scan_string(s, p0 + 1);
                assert(spec_tokenize_from(s, p0) == tok_prepend(mid, spec_after_token(s, j)));
            }
            match delim_step(&mut it, &mut tokens) {
                Ok(_) => {
                    proof {
                        lemma_tok_prepend_assoc(pre, mid, spec_after_token(s, j));
                    }
                },
                Err(e) => {
                    return Err(e);
                },
            }
        } else if is_ws_exec(c) {
            it.next();
            proof {
                assert(spec_tokenize_from(s, p0) == spec_tokenize_from(s, p0 + 1));
            }
        } else {
            let r = it.invalid_symbol(index, c);
            proof {
                let e = r->Err_0;
                assert(spec_tokenize_from(s, p0) == Err::<Seq<SpecToken>, SpecLexErr>(
                    syntax_error_view(e),
                ));
            }
            return r;
        }
    }
    proof {
        assert(spec_tokenize_from(s, it.cursor()) == Ok::<Seq<SpecToken>, SpecLexErr>(
            Seq::empty(),
        ));
        assert(tokens_view(tokens@) + Seq::<SpecToken>::empty() =~= tokens_view(tokens@));
    }
    Ok(tokens)
}

} // verus!
