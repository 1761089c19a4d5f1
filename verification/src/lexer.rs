//! The lexer: turns raw source bytes into a stream of tokens.
//!
//! Lexing is total: it never fails.  Whitespace and bytes that cannot start a
//! token are skipped, an unterminated string yields whatever text remains,
//! and number literals saturate instead of overflowing.  The function
//! [`spec_next_token`] is the complete mathematical description of one lexing
//! step; [`Lexer::next_token`] is proved to match it exactly.

use vstd::prelude::*;

use crate::number::{DEN_LIMIT, NUM_LIMIT, Number};

verus! {

/// The `"` delimiter of string literals.
pub const B_QUOTE: u8 = 34;

/// The `+` operator byte.
pub const B_PLUS: u8 = 43;

/// The `-` operator byte.
pub const B_MINUS: u8 = 45;

/// The `*` operator byte.
pub const B_STAR: u8 = 42;

/// The `/` operator byte.
pub const B_SLASH: u8 = 47;

/// The `.` byte separating a number's integer and fraction digits.
pub const B_DOT: u8 = 46;

/// The `_` byte, allowed in identifiers.
pub const B_UNDERSCORE: u8 = 95;

/// The `t` byte, the first byte of `true`.
pub const B_LOWER_T: u8 = 116;

/// The `f` byte, the first byte of `false`.
pub const B_LOWER_F: u8 = 102;

/// ASCII decimal digit.
pub open spec fn is_digit(b: u8) -> bool {
    48 <= b <= 57
}

/// ASCII letter.
pub open spec fn is_alpha(b: u8) -> bool {
    (65 <= b <= 90) || (97 <= b <= 122)
}

/// Byte that may continue an identifier: letter, digit or underscore.
pub open spec fn is_ident_char(b: u8) -> bool {
    is_alpha(b) || is_digit(b) || b == B_UNDERSCORE
}

/// ASCII whitespace, as skipped between tokens.
pub open spec fn is_whitespace(b: u8) -> bool {
    b == 32 || b == 9 || b == 10 || b == 12 || b == 13
}

/// Byte at which a token begins.  Everything else, whitespace included, is
/// silently skipped.
pub open spec fn is_token_start(b: u8) -> bool {
    ||| b == B_QUOTE
    ||| is_digit(b)
    ||| b == B_PLUS
    ||| b == B_MINUS
    ||| b == B_STAR
    ||| b == B_SLASH
    ||| is_alpha(b)
    ||| b == B_UNDERSCORE
}

/// The classes of bytes over which the lexer scans maximal runs.
#[derive(Clone, Copy, PartialEq, Eq, Structural, Debug)]
pub enum ByteClass {
    /// ASCII whitespace.
    Whitespace,
    /// ASCII decimal digits.
    Digit,
    /// Letters, digits and underscores.
    IdentChar,
    /// Any byte other than the string delimiter `"`.
    NonQuote,
}

/// Whether `b` belongs to the class `c`.
pub open spec fn byte_in_class(c: ByteClass, b: u8) -> bool {
    match c {
        ByteClass::Whitespace => is_whitespace(b),
        ByteClass::Digit => is_digit(b),
        ByteClass::IdentChar => is_ident_char(b),
        ByteClass::NonQuote => b != B_QUOTE,
    }
}

/// The end of the maximal run of class-`c` bytes that begins at `pos`.
pub open spec fn run_end(input: Seq<u8>, pos: nat, c: ByteClass) -> nat
    decreases input.len() - pos,
{
    if pos >= input.len() {
        pos
    } else if byte_in_class(c, input[pos as int]) {
        run_end(input, (pos + 1) as nat, c)
    } else {
        pos
    }
}

/// `run_end` stays within bounds, covers only class bytes, and stops at the
/// first byte outside the class.
pub proof fn lemma_run_end(input: Seq<u8>, pos: nat, c: ByteClass)
    requires
        pos <= input.len(),
    ensures
        pos <= run_end(input, pos, c) <= input.len(),
        forall|i: int| pos <= i < run_end(input, pos, c) ==> byte_in_class(c, #[trigger] input[i]),
        run_end(input, pos, c) < input.len() ==> !byte_in_class(
            c,
            input[run_end(input, pos, c) as int],
        ),
    decreases input.len() - pos,
{
    if pos < input.len() && byte_in_class(c, input[pos as int]) {
        lemma_run_end(input, (pos + 1) as nat, c);
    }
}

/// The position of the first token-start byte at or after `pos`, or the end
/// of the input if there is none.
pub open spec fn token_start_from(input: Seq<u8>, pos: nat) -> nat
    decreases input.len() - pos,
{
    if pos >= input.len() {
        input.len()
    } else if is_token_start(input[pos as int]) {
        pos
    } else {
        token_start_from(input, (pos + 1) as nat)
    }
}

/// `token_start_from` stays within bounds and lands on a token-start byte
/// unless it reaches the end of the input.
pub proof fn lemma_token_start_from(input: Seq<u8>, pos: nat)
    requires
        pos <= input.len(),
    ensures
        pos <= token_start_from(input, pos) <= input.len(),
        token_start_from(input, pos) < input.len() ==> is_token_start(
            input[token_start_from(input, pos) as int],
        ),
    decreases input.len() - pos,
{
    if pos < input.len() && !is_token_start(input[pos as int]) {
        lemma_token_start_from(input, (pos + 1) as nat);
    }
}

/// Skipping a whitespace run does not move past the next token start.
pub proof fn lemma_token_start_skip_whitespace(input: Seq<u8>, pos: nat)
    requires
        pos <= input.len(),
    ensures
        token_start_from(input, pos) == token_start_from(
            input,
            run_end(input, pos, ByteClass::Whitespace),
        ),
    decreases input.len() - pos,
{
    if pos < input.len() && is_whitespace(input[pos as int]) {
        lemma_token_start_skip_whitespace(input, (pos + 1) as nat);
    }
}

/// A token of the language, as produced by the lexer.
///
/// String and identifier text is carried as raw bytes: the lexer works on a
/// byte buffer and never validates or re-encodes its input.
#[derive(Clone, PartialEq, Debug)]
pub enum Token {
    /// A string literal's text, without its delimiters.
    StringLiteral(Vec<u8>),
    /// A number literal's value.
    NumberLiteral(Number),
    /// `true` or `false`.
    BooleanLiteral(bool),
    /// A name to be looked up by the interpreter.
    Identifier(Vec<u8>),
    /// The `+` operator.
    Plus,
    /// The `-` operator.
    Minus,
    /// The `*` operator.
    Asterisk,
    /// The `/` operator.
    Slash,
    /// The end of the input; returned forever once reached.
    EOF,
}

/// The mathematical shape of a token, with byte sequences in place of
/// vectors.
pub enum TokenView {
    /// A string literal's text.
    StringLiteral(Seq<u8>),
    /// A number literal's value.
    NumberLiteral(Number),
    /// `true` or `false`.
    BooleanLiteral(bool),
    /// A name to be looked up by the interpreter.
    Identifier(Seq<u8>),
    /// The `+` operator.
    Plus,
    /// The `-` operator.
    Minus,
    /// The `*` operator.
    Asterisk,
    /// The `/` operator.
    Slash,
    /// The end of the input.
    EOF,
}

impl View for Token {
    type V = TokenView;

    open spec fn view(&self) -> TokenView {
        match self {
            Token::StringLiteral(s) => TokenView::StringLiteral(s@),
            Token::NumberLiteral(n) => TokenView::NumberLiteral(*n),
            Token::BooleanLiteral(b) => TokenView::BooleanLiteral(*b),
            Token::Identifier(s) => TokenView::Identifier(s@),
            Token::Plus => TokenView::Plus,
            Token::Minus => TokenView::Minus,
            Token::Asterisk => TokenView::Asterisk,
            Token::Slash => TokenView::Slash,
            Token::EOF => TokenView::EOF,
        }
    }
}

/// Number literals carry a well-formed number; other tokens are always well
/// formed.
pub open spec fn token_wf(t: TokenView) -> bool {
    match t {
        TokenView::NumberLiteral(n) => n.wf(),
        _ => true,
    }
}

/// Clamped base-ten accumulation: one more digit `d` onto the value `x`,
/// saturating at `NUM_LIMIT`.
pub open spec fn mul10_clamp(x: int, d: int) -> int {
    if x * 10 + d > NUM_LIMIT as int {
        NUM_LIMIT as int
    } else {
        x * 10 + d
    }
}

/// The value of a run of ASCII digits, most significant first, saturating at
/// `NUM_LIMIT`.
pub open spec fn digits_acc(s: Seq<u8>) -> int
    decreases s.len(),
{
    if s.len() == 0 {
        0
    } else {
        mul10_clamp(digits_acc(s.drop_last()), s.last() - 48)
    }
}

/// Ten to the `k`, saturating at `DEN_LIMIT`.
pub open spec fn pow10_clamp(k: nat) -> int
    decreases k,
{
    if k == 0 {
        1
    } else {
        let p = pow10_clamp((k - 1) as nat);
        if p * 10 > DEN_LIMIT as int {
            DEN_LIMIT as int
        } else {
            p * 10
        }
    }
}

/// The number denoted by a literal with mantissa value `mant` and `k`
/// fraction digits, negated when the literal had a leading minus sign.
pub open spec fn number_from_parts(mant: int, k: nat, neg: bool) -> Number {
    Number {
        num: (if neg {
            -mant
        } else {
            mant
        }) as i64,
        den: pow10_clamp(k) as u64,
    }
}

/// One lexing step for a string literal whose opening `"` stands at `p`:
/// the text runs to the next `"` or to the end of the input, and the cursor
/// passes the closing delimiter when there is one.
pub open spec fn spec_read_string(input: Seq<u8>, p: nat) -> (TokenView, nat) {
    let e = run_end(input, (p + 1) as nat, ByteClass::NonQuote);
    (
        TokenView::StringLiteral(input.subrange(p as int + 1, e as int)),
        if e < input.len() {
            (e + 1) as nat
        } else {
            e
        },
    )
}

/// One lexing step for a number whose first digit stands at `s`: a digit
/// run, optionally followed by `.` and another digit run.
pub open spec fn spec_read_number(input: Seq<u8>, s: nat, neg: bool) -> (TokenView, nat) {
    let d1 = run_end(input, s, ByteClass::Digit);
    if d1 < input.len() && input[d1 as int] == B_DOT {
        let d2 = run_end(input, (d1 + 1) as nat, ByteClass::Digit);
        (
            TokenView::NumberLiteral(
                number_from_parts(
                    digits_acc(
                        input.subrange(s as int, d1 as int) + input.subrange(
                            d1 as int + 1,
                            d2 as int,
                        ),
                    ),
                    (d2 - (d1 + 1)) as nat,
                    neg,
                ),
            ),
            d2,
        )
    } else {
        (
            TokenView::NumberLiteral(
                number_from_parts(digits_acc(input.subrange(s as int, d1 as int)), 0, neg),
            ),
            d1,
        )
    }
}

/// One lexing step for an identifier starting at `p`: the maximal run of
/// letters, digits and underscores.
pub open spec fn spec_read_identifier(input: Seq<u8>, p: nat) -> (TokenView, nat) {
    let e = run_end(input, p, ByteClass::IdentChar);
    (TokenView::Identifier(input.subrange(p as int, e as int)), e)
}

/// The bytes of the word `true`.
pub open spec fn true_bytes() -> Seq<u8> {
    seq![116u8, 114u8, 117u8, 101u8]
}

/// The bytes of the word `false`.
pub open spec fn false_bytes() -> Seq<u8> {
    seq![102u8, 97u8, 108u8, 115u8, 101u8]
}

/// One lexing step for a word starting with `t` or `f` at `p`: the
/// identifier-shaped word there — the maximal run of letters, digits and
/// underscores — is a boolean literal if it is exactly `true` or `false`,
/// and an identifier otherwise.  Both outcomes cover the same run, so the
/// tentative boolean and the identifier rule agree on token boundaries.
pub open spec fn spec_read_word(input: Seq<u8>, p: nat) -> (TokenView, nat) {
    let e = run_end(input, p, ByteClass::IdentChar);
    let w = input.subrange(p as int, e as int);
    if w == true_bytes() {
        (TokenView::BooleanLiteral(true), e)
    } else if w == false_bytes() {
        (TokenView::BooleanLiteral(false), e)
    } else {
        spec_read_identifier(input, p)
    }
}

/// One full lexing step from `pos`: skip to the next token-start byte and
/// read the token that begins there, or report the end of the input.  The
/// result is the token together with the cursor position after it.
pub open spec fn spec_next_token(input: Seq<u8>, pos: nat) -> (TokenView, nat) {
    let p = token_start_from(input, pos);
    if p >= input.len() {
        (TokenView::EOF, input.len())
    } else {
        let b = input[p as int];
        if b == B_QUOTE {
            spec_read_string(input, p)
        } else if is_digit(b) {
            spec_read_number(input, p, false)
        } else if b == B_PLUS {
            (TokenView::Plus, (p + 1) as nat)
        } else if b == B_MINUS {
            if p + 1 < input.len() && is_digit(input[p as int + 1]) {
                spec_read_number(input, (p + 1) as nat, true)
            } else {
                (TokenView::Minus, (p + 1) as nat)
            }
        } else if b == B_STAR {
            (TokenView::Asterisk, (p + 1) as nat)
        } else if b == B_SLASH {
            (TokenView::Slash, (p + 1) as nat)
        } else if b == B_LOWER_T || b == B_LOWER_F {
            spec_read_word(input, p)
        } else {
            spec_read_identifier(input, p)
        }
    }
}

/// The lexer: a byte buffer and a cursor that only moves forward.
pub struct Lexer {
    /// The full source text, as bytes.
    pub input: Vec<u8>,
    /// The cursor: index of the next unread byte.
    pub position: usize,
}

/// Tests whether `b` belongs to the class `c`.
fn in_class(c: ByteClass, b: u8) -> (r: bool)
    ensures
        r == byte_in_class(c, b),
{
    match c {
        ByteClass::Whitespace => b == 32 || b == 9 || b == 10 || b == 12 || b == 13,
        ByteClass::Digit => 48 <= b && b <= 57,
        ByteClass::IdentChar => (65 <= b && b <= 90) || (97 <= b && b <= 122) || (48 <= b && b
            <= 57) || b == B_UNDERSCORE,
        ByteClass::NonQuote => b != B_QUOTE,
    }
}

/// Advances from `start` to the end of the maximal run of class-`c` bytes.
fn scan(input: &Vec<u8>, start: usize, c: ByteClass) -> (end: usize)
    requires
        start <= input@.len(),
    ensures
        end == run_end(input@, start as nat, c),
        start <= end <= input@.len(),
{
    let mut i = start;
    while i < input.len() && in_class(c, input[i])
        invariant
            start <= i <= input@.len(),
            run_end(input@, start as nat, c) == run_end(input@, i as nat, c),
        decreases input@.len() - i,
    {
        i = i + 1;
    }
    i
}

/// Copies the bytes of `input[from .. to]` into a fresh vector.
fn copy_range(input: &Vec<u8>, from: usize, to: usize) -> (r: Vec<u8>)
    requires
        from <= to <= input@.len(),
    ensures
        r@ == input@.subrange(from as int, to as int),
{
    let mut r: Vec<u8> = Vec::new();
    let mut i = from;
    while i < to
        invariant
            from <= i <= to <= input@.len(),
            r@ == input@.subrange(from as int, i as int),
        decreases to - i,
    {
        r.push(input[i]);
        proof {
            assert(r@ =~= input@.subrange(from as int, i as int + 1));
        }
        i = i + 1;
    }
    r
}

/// Reads the digits of `input[from .. to]` onto the value `acc0`, which is
/// the value of the digits already read, saturating at `NUM_LIMIT`.
fn accumulate_digits(
    input: &Vec<u8>,
    from: usize,
    to: usize,
    acc0: u64,
    Ghost(prefix): Ghost<Seq<u8>>,
) -> (r: u64)
    requires
        from <= to <= input@.len(),
        forall|i: int| from <= i < to ==> is_digit(#[trigger] input@[i]),
        0 <= digits_acc(prefix) <= NUM_LIMIT as int,
        acc0 as int == digits_acc(prefix),
    ensures
        r as int == digits_acc(prefix + input@.subrange(from as int, to as int)),
        0 <= r as int <= NUM_LIMIT as int,
{
    let mut acc = acc0;
    let mut i = from;
    proof {
        assert(prefix + input@.subrange(from as int, from as int) =~= prefix);
    }
    while i < to
        invariant
            from <= i <= to <= input@.len(),
            forall|j: int| from <= j < to ==> is_digit(#[trigger] input@[j]),
            acc as int == digits_acc(prefix + input@.subrange(from as int, i as int)),
            0 <= acc as int <= NUM_LIMIT as int,
        decreases to - i,
    {
        let d = (input[i] - 48) as u64;
        let t = acc * 10 + d;
        let next = if t > NUM_LIMIT as u64 {
            NUM_LIMIT as u64
        } else {
            t
        };
        proof {
            let cur = prefix + input@.subrange(from as int, i as int);
            let ext = prefix + input@.subrange(from as int, i as int + 1);
            assert(ext =~= cur.push(input@[i as int]));
            assert(ext.drop_last() =~= cur);
            assert(next as int == mul10_clamp(digits_acc(cur), input@[i as int] - 48));
        }
        acc = next;
        i = i + 1;
    }
    acc
}

/// Computes ten to the `k`, saturating at `DEN_LIMIT`.
fn pow10(k: usize) -> (r: u64)
    ensures
        r as int == pow10_clamp(k as nat),
        1 <= r <= DEN_LIMIT,
    decreases k,
{
    if k == 0 {
        1
    } else {
        let p = pow10(k - 1);
        if p > DEN_LIMIT / 10 {
            DEN_LIMIT
        } else {
            p * 10
        }
    }
}

impl Lexer {
    /// The cursor never leaves the buffer.
    pub open spec fn wf(&self) -> bool {
        self.position <= self.input@.len()
    }

    /// A lexer over `input` with the cursor at the start.
    pub fn new(input: Vec<u8>) -> (r: Lexer)
        ensures
            r.input@ == input@,
            r.position == 0,
            r.wf(),
    {
        Lexer { input, position: 0 }
    }

    /// Moves the cursor past the whitespace run that begins at it.
    pub fn skip_whitespace(&mut self)
        requires
            old(self).wf(),
        ensures
            final(self).input@ == old(self).input@,
            final(self).position == run_end(
                old(self).input@,
                old(self).position as nat,
                ByteClass::Whitespace,
            ),
            final(self).wf(),
    {
        let e = scan(&self.input, self.position, ByteClass::Whitespace);
        self.position = e;
    }

    /// Reads a string literal whose opening delimiter stands at the cursor.
    fn read_string(&mut self) -> (t: Token)
        requires
            old(self).wf(),
            old(self).position < old(self).input@.len(),
        ensures
            final(self).input@ == old(self).input@,
            final(self).wf(),
            (t@, final(self).position as nat) == spec_read_string(
                old(self).input@,
                old(self).position as nat,
            ),
            token_wf(t@),
    {
        let n = self.input.len();
        let start = self.position + 1;
        let e = scan(&self.input, start, ByteClass::NonQuote);
        let bytes = copy_range(&self.input, start, e);
        self.position = if e < n {
            e + 1
        } else {
            e
        };
        Token::StringLiteral(bytes)
    }

    /// Reads a number literal whose first digit stands at the cursor; `neg`
    /// says whether a leading minus sign was consumed just before it.
    fn read_number(&mut self, neg: bool) -> (t: Token)
        requires
            old(self).wf(),
            old(self).position < old(self).input@.len(),
            is_digit(old(self).input@[old(self).position as int]),
        ensures
            final(self).input@ == old(self).input@,
            final(self).wf(),
            (t@, final(self).position as nat) == spec_read_number(
                old(self).input@,
                old(self).position as nat,
                neg,
            ),
            token_wf(t@),
    {
        let start = self.position;
        let d1 = scan(&self.input, start, ByteClass::Digit);
        proof {
            lemma_run_end(self.input@, start as nat, ByteClass::Digit);
        }
        if d1 < self.input.len() && self.input[d1] == B_DOT {
            let d2 = scan(&self.input, d1 + 1, ByteClass::Digit);
            proof {
                lemma_run_end(self.input@, (d1 + 1) as nat, ByteClass::Digit);
                assert(Seq::<u8>::empty() + self.input@.subrange(start as int, d1 as int)
                    =~= self.input@.subrange(start as int, d1 as int));
            }
            let m1 = accumulate_digits(&self.input, start, d1, 0, Ghost(Seq::<u8>::empty()));
            let m2 = accumulate_digits(
                &self.input,
                d1 + 1,
                d2,
                m1,
                Ghost(self.input@.subrange(start as int, d1 as int)),
            );
            let k = d2 - (d1 + 1);
            let den = pow10(k);
            let num: i64 = if neg {
                -(m2 as i64)
            } else {
                m2 as i64
            };
            self.position = d2;
            Token::NumberLiteral(Number { num, den })
        } else {
            proof {
                assert(Seq::<u8>::empty() + self.input@.subrange(start as int, d1 as int)
                    =~= self.input@.subrange(start as int, d1 as int));
            }
            let m1 = accumulate_digits(&self.input, start, d1, 0, Ghost(Seq::<u8>::empty()));
            let num: i64 = if neg {
                -(m1 as i64)
            } else {
                m1 as i64
            };
            self.position = d1;
            Token::NumberLiteral(Number { num, den: 1 })
        }
    }

    /// Reads an identifier that begins at the cursor.
    fn read_identifier(&mut self) -> (t: Token)
        requires
            old(self).wf(),
        ensures
            final(self).input@ == old(self).input@,
            final(self).wf(),
            (t@, final(self).position as nat) == spec_read_identifier(
                old(self).input@,
                old(self).position as nat,
            ),
            token_wf(t@),
    {
        let start = self.position;
        let e = scan(&self.input, start, ByteClass::IdentChar);
        let bytes = copy_range(&self.input, start, e);
        self.position = e;
        Token::Identifier(bytes)
    }

    /// Reads the identifier-shaped word at the cursor as `true` or `false`
    /// when it is exactly one of those, and as an identifier otherwise; both
    /// paths scan the same run, so the token boundaries cannot diverge.
    fn read_boolean(&mut self) -> (t: Token)
        requires
            old(self).wf(),
        ensures
            final(self).input@ == old(self).input@,
            final(self).wf(),
            (t@, final(self).position as nat) == spec_read_word(
                old(self).input@,
                old(self).position as nat,
            ),
            token_wf(t@),
    {
        let start = self.position;
        let e = scan(&self.input, start, ByteClass::IdentChar);
        let ghost w = self.input@.subrange(start as int, e as int);
        if e - start == 4 && self.input[start] == 116 && self.input[start + 1] == 114
            && self.input[start + 2] == 117 && self.input[start + 3] == 101 {
            proof {
                assert(w =~= true_bytes());
            }
            self.position = e;
            Token::BooleanLiteral(true)
        } else if e - start == 5 && self.input[start] == 102 && self.input[start + 1] == 97
            && self.input[start + 2] == 108 && self.input[start + 3] == 115 && self.input[start
            + 4] == 101 {
            proof {
                assert(w =~= false_bytes());
            }
            self.position = e;
            Token::BooleanLiteral(false)
        } else {
            proof {
                if w == true_bytes() {
                    assert(w.len() == 4 && w[0] == 116 && w[1] == 114 && w[2] == 117 && w[3]
                        == 101);
                }
                if w == false_bytes() {
                    assert(w.len() == 5 && w[0] == 102 && w[1] == 97 && w[2] == 108 && w[3] == 115
                        && w[4] == 101);
                }
            }
            self.read_identifier()
        }
    }

    /// Produces the next token and advances the cursor, exactly as
    /// [`spec_next_token`] describes.  Once the end of the input is reached,
    /// every further call yields the end-of-input token again.
    pub fn next_token(&mut self) -> (t: Token)
        requires
            old(self).wf(),
        ensures
            final(self).input@ == old(self).input@,
            final(self).wf(),
            (t@, final(self).position as nat) == spec_next_token(
                old(self).input@,
                old(self).position as nat,
            ),
            token_wf(t@),
        decreases old(self).input@.len() - old(self).position,
    {
        let ghost input0 = self.input@;
        let ghost pos0 = self.position as nat;
        proof {
            lemma_run_end(input0, pos0, ByteClass::Whitespace);
            lemma_token_start_skip_whitespace(input0, pos0);
        }
        self.skip_whitespace();
        if self.position == self.input.len() {
            return Token::EOF;
        }
        let cur = self.position;
        let b = self.input[cur];
        if b == B_QUOTE {
            self.read_string()
        } else if 48 <= b && b <= 57 {
            self.read_number(false)
        } else if b == B_PLUS {
            self.position = cur + 1;
            Token::Plus
        } else if b == B_MINUS {
            if cur + 1 < self.input.len() && {
                let nb = self.input[cur + 1];
                48 <= nb && nb <= 57
            } {
                self.position = cur + 1;
                self.read_number(true)
            } else {
                self.position = cur + 1;
                Token::Minus
            }
        } else if b == B_STAR {
            self.position = cur + 1;
            Token::Asterisk
        } else if b == B_SLASH {
            self.position = cur + 1;
            Token::Slash
        } else if b == B_LOWER_T || b == B_LOWER_F {
            self.read_boolean()
        } else if (65 <= b && b <= 90) || (97 <= b && b <= 122) || b == B_UNDERSCORE {
            self.read_identifier()
        } else {
            self.position = cur + 1;
            self.next_token()
        }
    }
}

/// A lexing step at or before the end of the input stays within it, stands
/// still only at the end of the input, and ends there exactly when it
/// produced the end-of-input token.
pub proof fn lemma_next_token_advances(input: Seq<u8>, pos: nat)
    requires
        pos <= input.len(),
    ensures
        spec_next_token(input, pos).1 <= input.len(),
        spec_next_token(input, pos).0 != TokenView::EOF ==> pos < spec_next_token(input, pos).1,
        spec_next_token(input, pos).0 == TokenView::EOF ==> spec_next_token(input, pos).1
            == input.len(),
{
    lemma_token_start_from(input, pos);
    let p = token_start_from(input, pos);
    if p < input.len() {
        let b = input[p as int];
        if b == B_QUOTE {
            lemma_run_end(input, (p + 1) as nat, ByteClass::NonQuote);
        } else if is_digit(b) {
            lemma_read_number_advances(input, p);
        } else if b == B_MINUS && p + 1 < input.len() && is_digit(input[p as int + 1]) {
            lemma_read_number_advances(input, (p + 1) as nat);
        } else if b == B_LOWER_T || b == B_LOWER_F {
            lemma_run_end(input, p, ByteClass::IdentChar);
        } else {
            lemma_run_end(input, p, ByteClass::IdentChar);
        }
    }
}

/// Reading a number that begins with a digit consumes at least that digit
/// and stays within the input.
proof fn lemma_read_number_advances(input: Seq<u8>, s: nat)
    requires
        s < input.len(),
        is_digit(input[s as int]),
    ensures
        s < spec_read_number(input, s, false).1 <= input.len(),
        s < spec_read_number(input, s, true).1 <= input.len(),
{
    lemma_run_end(input, s, ByteClass::Digit);
    let d1 = run_end(input, s, ByteClass::Digit);
    if d1 < input.len() && input[d1 as int] == B_DOT {
        lemma_run_end(input, (d1 + 1) as nat, ByteClass::Digit);
    }
}

/// The whole token stream from `pos` on: one token after another until the
/// end-of-input token, which is not included.
pub open spec fn spec_tokens_from(input: Seq<u8>, pos: nat) -> Seq<TokenView>
    decreases input.len() - pos,
    via spec_tokens_from_decreases
{
    if pos > input.len() {
        Seq::empty()
    } else {
        let (t, p2) = spec_next_token(input, pos);
        if t == TokenView::EOF {
            Seq::empty()
        } else {
            seq![t] + spec_tokens_from(input, p2)
        }
    }
}

#[via_fn]
proof fn spec_tokens_from_decreases(input: Seq<u8>, pos: nat) {
    if pos <= input.len() {
        lemma_next_token_advances(input, pos);
    }
}

/// The views of a vector of tokens.
pub open spec fn tokens_model(ts: Seq<Token>) -> Seq<TokenView> {
    ts.map_values(|t: Token| t@)
}

/// Collects the whole token stream of `input`: each token in order, stopping
/// at the end-of-input token, which is not kept.
pub fn tokenize(input: &Vec<u8>) -> (tokens: Vec<Token>)
    ensures
        tokens_model(tokens@) == spec_tokens_from(input@, 0),
        forall|i: int| 0 <= i < tokens@.len() ==> token_wf(#[trigger] tokens@[i]@),
{
    let ghost input0 = input@;
    let buffer = copy_range(input, 0, input.len());
    proof {
        assert(buffer@ =~= input0);
    }
    let mut lexer = Lexer::new(buffer);
    let mut tokens: Vec<Token> = Vec::new();
    proof {
        assert(tokens_model(tokens@) =~= Seq::<TokenView>::empty());
    }
    loop
        invariant
            input0 == input@,
            lexer.wf(),
            lexer.input@ == input0,
            spec_tokens_from(input0, 0) == tokens_model(tokens@) + spec_tokens_from(
                input0,
                lexer.position as nat,
            ),
            forall|i: int| 0 <= i < tokens@.len() ==> token_wf(#[trigger] tokens@[i]@),
        decreases input0.len() - lexer.position,
    {
        let ghost before = lexer.position as nat;
        let ghost collected = tokens@;
        let t = lexer.next_token();
        proof {
            lemma_next_token_advances(input0, before);
        }
        match t {
            Token::EOF => {
                proof {
                    assert(t@ == TokenView::EOF);
                    assert(before <= input0.len());
                    assert(spec_tokens_from(input0, before) =~= Seq::<TokenView>::empty());
                    assert(tokens_model(tokens@) + Seq::<TokenView>::empty() =~= tokens_model(
                        tokens@,
                    ));
                }
                return tokens;
            },
            _ => {
                proof {
                    assert(t@ != TokenView::EOF);
                }
                tokens.push(t);
                proof {
                    assert(tokens_model(tokens@) =~= tokens_model(collected).push(t@));
                    assert(tokens_model(collected) + spec_tokens_from(input0, before)
                        =~= tokens_model(tokens@) + spec_tokens_from(
                        input0,
                        lexer.position as nat,
                    ));
                }
            },
        }
    }
}

} // verus!
