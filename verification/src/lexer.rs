//! The tokenizer: turns one line (or any buffer) of text into a forward-only
//! sequence of tokens. Whitespace separates tokens and never produces one.
//! A span led by an ASCII digit is scanned as a numeral (digits and dots,
//! stopping before the first other character); any other span is scanned as a
//! word (up to the next whitespace). A numeral span holding more than one `.`
//! is a parse failure, reported without consuming anything further.
//!
//! The spec-level scanner (`spec_scan` and the functions it is built from) is
//! the reference model: `lex` is proved to return exactly the token that
//! `spec_scan` names at the current position, and to advance the cursor to
//! the position `spec_scan` names.

use crate::error::EvalError;
use crate::value::{numeral_value, parse_numeral};
use vstd::prelude::*;

verus! {

/// The unit produced by the tokenizer: a parsed number (an IEEE-754 binary64
/// bit pattern), a word name, or the end-of-input sentinel.
#[derive(Debug, Clone, PartialEq)]
pub enum Token {
    Word(String),
    Number(u64),
    Eof,
}

/// A character that separates tokens: the Unicode `White_Space` set.
pub open spec fn is_space(c: char) -> bool {
    ||| c == ' '
    ||| c == '\t'
    ||| c == '\n'
    ||| c == '\r'
    ||| c == '\u{000B}'
    ||| c == '\u{000C}'
    ||| c == '\u{0085}'
    ||| c == '\u{00A0}'
    ||| c == '\u{1680}'
    ||| (0x2000 <= c as u32 && c as u32 <= 0x200A)
    ||| c == '\u{2028}'
    ||| c == '\u{2029}'
    ||| c == '\u{202F}'
    ||| c == '\u{205F}'
    ||| c == '\u{3000}'
}

/// An ASCII decimal digit: the first character of every numeral span.
pub open spec fn is_digit(c: char) -> bool {
    '0' as u32 <= c as u32 && c as u32 <= '9' as u32
}

/// A character that a numeral span may go on with: a digit or a dot.
pub open spec fn is_numeral_char(c: char) -> bool {
    is_digit(c) || c == '.'
}

/// How many `.` characters a span holds.
pub open spec fn dot_count(s: Seq<char>) -> nat
    decreases s.len(),
{
    if s.len() == 0 {
        0
    } else {
        dot_count(s.drop_last()) + (if s.last() == '.' {
            1nat
        } else {
            0nat
        })
    }
}

/// The first position at or after `i` that does not hold whitespace
/// (or the end of the input).
pub open spec fn skip_ws(s: Seq<char>, i: nat) -> nat
    decreases s.len() - i,
{
    if i < s.len() && is_space(s[i as int]) {
        skip_ws(s, (i + 1) as nat)
    } else {
        i
    }
}

/// The first position at or after `i` that does not hold a numeral character
/// (or the end of the input): where a numeral span ends.
pub open spec fn numeral_end(s: Seq<char>, i: nat) -> nat
    decreases s.len() - i,
{
    if i < s.len() && is_numeral_char(s[i as int]) {
        numeral_end(s, (i + 1) as nat)
    } else {
        i
    }
}

/// The first position at or after `i` that holds whitespace
/// (or the end of the input): where a word span ends.
pub open spec fn word_end(s: Seq<char>, i: nat) -> nat
    decreases s.len() - i,
{
    if i < s.len() && !is_space(s[i as int]) {
        word_end(s, (i + 1) as nat)
    } else {
        i
    }
}

/// The spec-level shape of one scanned token: the span it covers, before any
/// parsing of numerals.
pub enum SpecToken {
    Number(Seq<char>),
    Word(Seq<char>),
    Eof,
}

/// The reference scanner: the next token starting at position `i` of `s`,
/// and the position just after it. Whitespace is skipped first; a digit opens
/// a numeral span, anything else a word span.
pub open spec fn spec_scan(s: Seq<char>, i: nat) -> (SpecToken, nat) {
    let j = skip_ws(s, i);
    if j >= s.len() {
        (SpecToken::Eof, s.len())
    } else if is_digit(s[j as int]) {
        let k = numeral_end(s, (j + 1) as nat);
        (SpecToken::Number(s.subrange(j as int, k as int)), k)
    } else {
        let k = word_end(s, (j + 1) as nat);
        (SpecToken::Word(s.subrange(j as int, k as int)), k)
    }
}

/// What `lex` returns and where it leaves the cursor, given where it
/// started: the exec-level outcome that matches `spec_scan`.
pub open spec fn lex_step_ok(s: Seq<char>, i: nat, r: Result<Token, EvalError>, p2: nat) -> bool {
    let (t, p) = spec_scan(s, i);
    &&& p2 == p
    &&& match t {
        SpecToken::Eof => r == Ok::<Token, EvalError>(Token::Eof),
        SpecToken::Number(span) => {
            if dot_count(span) <= 1 {
                r matches Ok(Token::Number(v)) && v == numeral_value(span)
            } else {
                r matches Err(EvalError::ParseError { span: sp }) && sp@ == span
            }
        },
        SpecToken::Word(w) => r matches Ok(Token::Word(name)) && name@ == w,
    }
}

/// What `next` returns: as `lex`, with end of input and parse failures both
/// folded to `None`.
pub open spec fn next_step_ok(s: Seq<char>, i: nat, r: Option<Token>, p2: nat) -> bool {
    let (t, p) = spec_scan(s, i);
    &&& p2 == p
    &&& match t {
        SpecToken::Eof => r is None,
        SpecToken::Number(span) => {
            if dot_count(span) <= 1 {
                r matches Some(Token::Number(v)) && v == numeral_value(span)
            } else {
                r is None
            }
        },
        SpecToken::Word(w) => r matches Some(Token::Word(name)) && name@ == w,
    }
}

pub fn is_space_char(c: char) -> (r: bool)
    ensures
        r == is_space(c),
{
    c == ' ' || c == '\t' || c == '\n' || c == '\r' || c == '\u{000B}' || c == '\u{000C}' || c
        == '\u{0085}' || c == '\u{00A0}' || c == '\u{1680}' || (0x2000 <= c as u32 && c as u32
        <= 0x200A) || c == '\u{2028}' || c == '\u{2029}' || c == '\u{202F}' || c == '\u{205F}' || c
        == '\u{3000}'
}

pub fn is_digit_char(c: char) -> (r: bool)
    ensures
        r == is_digit(c),
{
    '0' as u32 <= c as u32 && c as u32 <= '9' as u32
}

pub fn is_numeral_char_at(c: char) -> (r: bool)
    ensures
        r == is_numeral_char(c),
{
    is_digit_char(c) || c == '.'
}

pub proof fn lemma_dot_count_push(s: Seq<char>, c: char)
    ensures
        dot_count(s.push(c)) == dot_count(s) + (if c == '.' {
            1nat
        } else {
            0nat
        }),
{
    assert(s.push(c).drop_last() =~= s);
    assert(s.push(c).last() == c);
}

/// `skip_ws` never moves backwards and never runs past the end.
pub proof fn lemma_skip_ws_bounds(s: Seq<char>, i: nat)
    requires
        i <= s.len(),
    ensures
        i <= skip_ws(s, i) <= s.len(),
    decreases s.len() - i,
{
    if i < s.len() && is_space(s[i as int]) {
        lemma_skip_ws_bounds(s, (i + 1) as nat);
    }
}

/// When everything from `i` on is whitespace, `skip_ws` runs to the end.
pub proof fn lemma_skip_ws_all(s: Seq<char>, i: nat)
    requires
        i <= s.len(),
        forall|k: int| i <= k < s.len() ==> is_space(#[trigger] s[k]),
    ensures
        skip_ws(s, i) == s.len(),
    decreases s.len() - i,
{
    if i < s.len() {
        lemma_skip_ws_all(s, (i + 1) as nat);
    }
}

/// `numeral_end` stays within bounds, and everything before it (from `i` on)
/// is a numeral character.
pub proof fn lemma_numeral_end_bounds(s: Seq<char>, i: nat)
    requires
        i <= s.len(),
    ensures
        i <= numeral_end(s, i) <= s.len(),
        forall|m: int| i <= m < numeral_end(s, i) ==> is_numeral_char(#[trigger] s[m]),
    decreases s.len() - i,
{
    if i < s.len() && is_numeral_char(s[i as int]) {
        lemma_numeral_end_bounds(s, (i + 1) as nat);
    }
}

/// When everything from `i` on is a numeral character, the numeral span runs
/// to the end.
pub proof fn lemma_numeral_end_all(s: Seq<char>, i: nat)
    requires
        i <= s.len(),
        forall|k: int| i <= k < s.len() ==> is_numeral_char(#[trigger] s[k]),
    ensures
        numeral_end(s, i) == s.len(),
    decreases s.len() - i,
{
    if i < s.len() {
        lemma_numeral_end_all(s, (i + 1) as nat);
    }
}

/// `word_end` stays within bounds.
pub proof fn lemma_word_end_bounds(s: Seq<char>, i: nat)
    requires
        i <= s.len(),
    ensures
        i <= word_end(s, i) <= s.len(),
    decreases s.len() - i,
{
    if i < s.len() && !is_space(s[i as int]) {
        lemma_word_end_bounds(s, (i + 1) as nat);
    }
}

/// When nothing from `i` on is whitespace, the word span runs to the end.
pub proof fn lemma_word_end_all(s: Seq<char>, i: nat)
    requires
        i <= s.len(),
        forall|k: int| i <= k < s.len() ==> !is_space(#[trigger] s[k]),
    ensures
        word_end(s, i) == s.len(),
    decreases s.len() - i,
{
    if i < s.len() {
        lemma_word_end_all(s, (i + 1) as nat);
    }
}

/// The scanner makes progress: it never runs past the end, and every token
/// other than end-of-input moves the position strictly forward.
pub proof fn lemma_scan_progress(s: Seq<char>, i: nat)
    requires
        i <= s.len(),
    ensures
        i <= spec_scan(s, i).1 <= s.len(),
        spec_scan(s, i).0 matches SpecToken::Eof ==> spec_scan(s, i).1 == s.len(),
        !(spec_scan(s, i).0 matches SpecToken::Eof) ==> i < spec_scan(s, i).1,
{
    lemma_skip_ws_bounds(s, i);
    let j = skip_ws(s, i);
    if j < s.len() {
        lemma_numeral_end_bounds(s, (j + 1) as nat);
        lemma_word_end_bounds(s, (j + 1) as nat);
    }
}

/// Once the input is consumed, every further scan yields end of input again:
/// asking for tokens past the end is safe, without limit.
pub proof fn lemma_eof_stable(s: Seq<char>)
    ensures
        spec_scan(s, s.len()) == (SpecToken::Eof, s.len()),
{
    assert(skip_ws(s, s.len()) == s.len());
}

/// Law: a valid numeral span — led by a digit, made of digits and at most one
/// `.` — tokenizes to exactly one token: a `Number` over the whole span,
/// followed only by end of input. By `lex`'s contract the token's value is
/// `numeral_value` of the span, the standard decimal parse.
pub proof fn lemma_numeral_span_single_token(s: Seq<char>)
    requires
        s.len() >= 1,
        is_digit(s[0]),
        forall|i: int| 0 <= i < s.len() ==> is_numeral_char(#[trigger] s[i]),
        dot_count(s) <= 1,
    ensures
        spec_scan(s, 0) == (SpecToken::Number(s), s.len()),
        spec_scan(s, s.len()) == (SpecToken::Eof, s.len()),
{
    assert(skip_ws(s, 0) == 0);
    lemma_numeral_end_all(s, 1);
    assert(s.subrange(0, s.len() as int) =~= s);
    lemma_eof_stable(s);
}

/// Law: a non-empty span that is free of whitespace and does not start with a
/// digit tokenizes to exactly one token: a `Word` whose name is the span,
/// verbatim, followed only by end of input.
pub proof fn lemma_word_span_single_token(s: Seq<char>)
    requires
        s.len() >= 1,
        !is_digit(s[0]),
        forall|i: int| 0 <= i < s.len() ==> !is_space(#[trigger] s[i]),
    ensures
        spec_scan(s, 0) == (SpecToken::Word(s), s.len()),
        spec_scan(s, s.len()) == (SpecToken::Eof, s.len()),
{
    assert(skip_ws(s, 0) == 0);
    lemma_word_end_all(s, 1);
    assert(s.subrange(0, s.len() as int) =~= s);
    lemma_eof_stable(s);
}

/// Law: the empty input, or one of whitespace alone, yields only the
/// end-of-input token, at the very first scan and at every later one.
pub proof fn lemma_whitespace_only_eof(s: Seq<char>)
    requires
        forall|i: int| 0 <= i < s.len() ==> is_space(#[trigger] s[i]),
    ensures
        spec_scan(s, 0) == (SpecToken::Eof, s.len()),
        spec_scan(s, s.len()) == (SpecToken::Eof, s.len()),
{
    lemma_skip_ws_all(s, 0);
    lemma_eof_stable(s);
}

/// The tokenizer: a read-only view of the input and a cursor, moved forward
/// one token at a time by `lex`.
#[derive(Debug)]
pub struct Lexer<'a> {
    input: &'a str,
    position: usize,
}

impl<'a> Lexer<'a> {
    /// The input text, as the sequence of its characters.
    pub closed spec fn src(&self) -> Seq<char> {
        self.input@
    }

    /// The cursor: how many characters have been consumed.
    pub closed spec fn pos(&self) -> nat {
        self.position as nat
    }

    /// The cursor never runs past the end of the input.
    pub open spec fn wf(&self) -> bool {
        self.pos() <= self.src().len()
    }

    pub fn new(input: &'a str) -> (l: Lexer<'a>)
        ensures
            l.src() == input@,
            l.pos() == 0,
            l.wf(),
    {
        Lexer { input, position: 0 }
    }

    /// Scan the next token: skip whitespace, then read one numeral or word
    /// span, or report end of input — which is safe to ask for repeatedly.
    /// A numeral span with more than one `.` is a `ParseError` naming the
    /// span; any other numeral span parses to its standard decimal value.
    pub fn lex(&mut self) -> (r: Result<Token, EvalError>)
        requires
            old(self).wf(),
        ensures
            final(self).wf(),
            final(self).src() == old(self).src(),
            lex_step_ok(old(self).src(), old(self).pos(), r, final(self).pos()),
    {
        let ghost s: Seq<char> = self.input@;
        let ghost i0: nat = self.position as nat;
        let n = self.input.unicode_len();
        while self.position < n && is_space_char(self.input.get_char(self.position))
            invariant
                self.input@ == s,
                n == s.len(),
                self.position <= n,
                skip_ws(s, i0) == skip_ws(s, self.position as nat),
            decreases n - self.position,
        {
            proof {
                assert(skip_ws(s, self.position as nat) == skip_ws(
                    s,
                    (self.position + 1) as nat,
                ));
            }
            self.position = self.position + 1;
        }
        proof {
            assert(skip_ws(s, self.position as nat) == self.position as nat);
        }
        if self.position == n {
            return Ok(Token::Eof);
        }
        let c = self.input.get_char(self.position);
        let start = self.position;
        self.position = self.position + 1;
        if is_digit_char(c) {
            while self.position < n && is_numeral_char_at(self.input.get_char(self.position))
                invariant
                    self.input@ == s,
                    n == s.len(),
                    start < self.position <= n,
                    numeral_end(s, (start + 1) as nat) == numeral_end(s, self.position as nat),
                decreases n - self.position,
            {
                proof {
                    assert(numeral_end(s, self.position as nat) == numeral_end(
                        s,
                        (self.position + 1) as nat,
                    ));
                }
                self.position = self.position + 1;
            }
            proof {
                assert(numeral_end(s, self.position as nat) == self.position as nat);
            }
            let span_str = self.input.substring_char(start, self.position);
            let span_len = self.position - start;
            let mut dots: usize = 0;
            let mut idx: usize = 0;
            while idx < span_len
                invariant
                    span_len == span_str@.len(),
                    dots <= idx <= span_len,
                    dots == dot_count(span_str@.subrange(0, idx as int)),
                decreases span_len - idx,
            {
                let ch = span_str.get_char(idx);
                proof {
                    assert(span_str@.subrange(0, (idx + 1) as int) =~= span_str@.subrange(
                        0,
                        idx as int,
                    ).push(ch));
                    lemma_dot_count_push(span_str@.subrange(0, idx as int), ch);
                }
                if ch == '.' {
                    dots = dots + 1;
                }
                idx = idx + 1;
            }
            proof {
                assert(span_str@.subrange(0, span_len as int) =~= span_str@);
            }
            if dots >= 2 {
                return Err(EvalError::ParseError { span: span_str.to_owned() });
            }
            proof {
                lemma_numeral_end_bounds(s, (start + 1) as nat);
                assert forall|i: int| 0 <= i < span_str@.len() implies is_numeral_char(
                    #[trigger] span_str@[i],
                ) by {
                    assert(span_str@[i] == s[start + i]);
                    if i == 0 {
                        assert(is_digit(s[start as int]));
                    }
                }
            }
            let v = parse_numeral(span_str);
            Ok(Token::Number(v))
        } else {
            while self.position < n && !is_space_char(self.input.get_char(self.position))
                invariant
                    self.input@ == s,
                    n == s.len(),
                    start < self.position <= n,
                    word_end(s, (start + 1) as nat) == word_end(s, self.position as nat),
                decreases n - self.position,
            {
                proof {
                    assert(word_end(s, self.position as nat) == word_end(
                        s,
                        (self.position + 1) as nat,
                    ));
                }
                self.position = self.position + 1;
            }
            proof {
                assert(word_end(s, self.position as nat) == self.position as nat);
            }
            let name = self.input.substring_char(start, self.position).to_owned();
            Ok(Token::Word(name))
        }
    }

    /// Scan the next actionable token: as `lex`, but with end of input and
    /// parse failures both folded to `None`.
    pub fn next(&mut self) -> (r: Option<Token>)
        requires
            old(self).wf(),
        ensures
            final(self).wf(),
            final(self).src() == old(self).src(),
            next_step_ok(old(self).src(), old(self).pos(), r, final(self).pos()),
    {
        match self.lex() {
            Ok(Token::Eof) => None,
            Ok(t) => Some(t),
            Err(_) => None,
        }
    }
}

} // verus!
