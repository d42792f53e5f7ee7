//! Lexing of terms.
//!
//! Whitespace separates tokens and is skipped.  The recognised tokens are
//! the punctuation `, | ~ ( )`, decimal integers, double-quoted non-empty
//! strings without escapes, and alphabetic identifiers.  Anything else —
//! including an integer that does not fit in 32 bits, an empty or
//! unterminated string — produces the [`Token::Error`] token.

use vstd::prelude::*;

verus! {

broadcast use vstd::seq::group_seq_axioms;

/// Token generated during lexing.
#[derive(Debug)]
pub enum Token {
    /// Emitted when there is a lexical error.
    Error,
    /// `,`.
    Comma,
    /// `|`.
    Pipe,
    /// `~`.
    Tilde,
    /// `(`.
    LeftParenthesis,
    /// `)`.
    RightParenthesis,
    /// Integer token.
    Integer(i32),
    /// String token.
    String(Vec<u8>),
    /// Identifier token.
    ///
    /// Whether this is interpreted as a symbol or as a variable depends on
    /// the scope given to the parser.
    Identifier(Vec<u8>),
}

/// The mathematical model of a token.
#[verifier::ext_equal]
pub enum TokenX {
    Error,
    Comma,
    Pipe,
    Tilde,
    LeftParenthesis,
    RightParenthesis,
    Integer(int),
    Str(Seq<u8>),
    Identifier(Seq<u8>),
}

impl vstd::view::View for Token {
    type V = TokenX;

    open spec fn view(&self) -> TokenX {
        match self {
            Token::Error => TokenX::Error,
            Token::Comma => TokenX::Comma,
            Token::Pipe => TokenX::Pipe,
            Token::Tilde => TokenX::Tilde,
            Token::LeftParenthesis => TokenX::LeftParenthesis,
            Token::RightParenthesis => TokenX::RightParenthesis,
            Token::Integer(v) => TokenX::Integer(*v as int),
            Token::String(bytes) => TokenX::Str(bytes@),
            Token::Identifier(bytes) => TokenX::Identifier(bytes@),
        }
    }
}

/// Whether a byte is token-separating whitespace.
pub open spec fn is_space(b: u8) -> bool {
    b == 9 || b == 10 || b == 11 || b == 12 || b == 13 || b == 32
}

/// Whether a byte is a decimal digit.
pub open spec fn is_digit(b: u8) -> bool {
    48 <= b <= 57
}

/// Whether a byte is an ASCII letter.
pub open spec fn is_letter(b: u8) -> bool {
    (65 <= b <= 90) || (97 <= b <= 122)
}

/// The first position at or after `i` that does not hold whitespace.
pub open spec fn skip_spaces(s: Seq<u8>, i: int) -> int
    decreases s.len() - i,
{
    if 0 <= i < s.len() && is_space(s[i]) {
        skip_spaces(s, i + 1)
    } else {
        i
    }
}

/// The first position at or after `i` that does not hold a digit.
pub open spec fn digits_end(s: Seq<u8>, i: int) -> int
    decreases s.len() - i,
{
    if 0 <= i < s.len() && is_digit(s[i]) {
        digits_end(s, i + 1)
    } else {
        i
    }
}

/// The first position at or after `i` that does not hold a letter.
pub open spec fn letters_end(s: Seq<u8>, i: int) -> int
    decreases s.len() - i,
{
    if 0 <= i < s.len() && is_letter(s[i]) {
        letters_end(s, i + 1)
    } else {
        i
    }
}

/// The first position at or after `i` that holds a double quote, or the
/// end of the input.
pub open spec fn quote_end(s: Seq<u8>, i: int) -> int
    decreases s.len() - i,
{
    if 0 <= i < s.len() && s[i] != 34 {
        quote_end(s, i + 1)
    } else {
        i
    }
}

/// The value of the decimal digits `s[i .. j]`.
pub open spec fn int_value(s: Seq<u8>, i: int, j: int) -> int
    decreases j - i,
{
    if i < j {
        int_value(s, i, j - 1) * 10 + (s[j - 1] - 48)
    } else {
        0
    }
}

/// The token starting at position `i`, which must hold a non-space byte,
/// and the position just after it.
pub open spec fn token_at(s: Seq<u8>, i: int) -> (TokenX, int) {
    let b = s[i];
    if b == 44 {
        (TokenX::Comma, i + 1)
    } else if b == 124 {
        (TokenX::Pipe, i + 1)
    } else if b == 126 {
        (TokenX::Tilde, i + 1)
    } else if b == 40 {
        (TokenX::LeftParenthesis, i + 1)
    } else if b == 41 {
        (TokenX::RightParenthesis, i + 1)
    } else if is_digit(b) {
        let j = digits_end(s, i);
        let value = int_value(s, i, j);
        if value <= 0x7FFF_FFFF {
            (TokenX::Integer(value), j)
        } else {
            (TokenX::Error, j)
        }
    } else if b == 34 {
        let j = quote_end(s, i + 1);
        if j < s.len() && j > i + 1 {
            (TokenX::Str(s.subrange(i + 1, j)), j + 1)
        } else {
            (TokenX::Error, i + 1)
        }
    } else if is_letter(b) {
        let j = letters_end(s, i);
        (TokenX::Identifier(s.subrange(i, j)), j)
    } else {
        (TokenX::Error, i + 1)
    }
}

/// The positions the scanning helpers return stay inside the input.
pub proof fn lemma_scan_bounds(s: Seq<u8>, i: int)
    requires
        0 <= i <= s.len(),
    ensures
        i <= skip_spaces(s, i) <= s.len(),
        i <= digits_end(s, i) <= s.len(),
        i <= letters_end(s, i) <= s.len(),
        i <= quote_end(s, i) <= s.len(),
    decreases s.len() - i,
{
    if i < s.len() {
        lemma_scan_bounds(s, i + 1);
    }
}

/// The sequence of tokens of `s`, starting at position `i`.
pub open spec fn spec_lex(s: Seq<u8>, i: int) -> Seq<TokenX>
    decreases s.len() - i,
{
    let i2 = skip_spaces(s, i);
    if 0 <= i && i <= i2 && i2 < s.len() {
        let (tok, nxt) = token_at(s, i2);
        if i < nxt <= s.len() {
            Seq::empty().push(tok) + spec_lex(s, nxt)
        } else {
            Seq::empty().push(tok)
        }
    } else {
        Seq::empty()
    }
}

/// Skipping whitespace stops on a non-space byte or at the end.
pub proof fn lemma_skip_spaces_stops(s: Seq<u8>, i: int)
    requires
        0 <= i <= s.len(),
    ensures
        skip_spaces(s, i) < s.len() ==> !is_space(s[skip_spaces(s, i)]),
    decreases s.len() - i,
{
    if i < s.len() && is_space(s[i]) {
        lemma_skip_spaces_stops(s, i + 1);
    }
}

/// The token scanner always makes progress and stays inside the input.
pub proof fn lemma_token_at_bounds(s: Seq<u8>, i: int)
    requires
        0 <= i < s.len(),
        !is_space(s[i]),
    ensures
        i < token_at(s, i).1 <= s.len(),
{
    lemma_scan_bounds(s, i);
    lemma_scan_bounds(s, i + 1);
    if is_digit(s[i]) {
        assert(digits_end(s, i) == digits_end(s, i + 1));
    } else if s[i] == 34 {
    } else if is_letter(s[i]) {
        assert(letters_end(s, i) == letters_end(s, i + 1));
    }
}

/// Stream of tokens generated from text.
pub struct Lexer {
    tokens: Vec<Token>,
    pos: usize,
}

impl Lexer {
    /// The tokens of the stream.
    pub closed spec fn toks(&self) -> Seq<TokenX> {
        self.tokens@.map_values(|t: Token| t@)
    }

    /// The position of the next token to hand out.
    pub closed spec fn at(&self) -> int {
        self.pos as int
    }

    /// Whether the stream is exhausted.
    pub fn done(&self) -> (r: bool)
        requires
            self.at() <= self.toks().len(),
        ensures
            r <==> self.at() == self.toks().len(),
    {
        self.pos == self.tokens.len()
    }

    /// Borrow the next token without consuming it.
    pub(crate) fn peek_ref(&self) -> (r: &Token)
        requires
            self.at() < self.toks().len(),
        ensures
            r@ == self.toks()[self.at()],
    {
        &self.tokens[self.pos]
    }

    /// Consume one token.
    pub(crate) fn advance(&mut self)
        requires
            old(self).at() < old(self).toks().len(),
        ensures
            final(self).toks() == old(self).toks(),
            final(self).at() == old(self).at() + 1,
    {
        let count = self.tokens.len();
        proof {
            assert(self.toks().len() == self.tokens@.len());
            assert(self.pos < count);
        }
        self.pos = self.pos + 1;
    }

    /// The next token, or `None` at the end of the input.
    pub fn next(&mut self) -> (r: Option<Token>)
        requires
            old(self).at() <= old(self).toks().len(),
        ensures
            final(self).toks() == old(self).toks(),
            match r {
                Some(t) => old(self).at() < old(self).toks().len() && t@ == old(self).toks()[old(
                    self,
                ).at()] && final(self).at() == old(self).at() + 1,
                None => old(self).at() == old(self).toks().len() && final(self).at() == old(
                    self,
                ).at(),
            },
    {
        proof {
            assert(self.toks().len() == self.tokens@.len());
        }
        if self.pos == self.tokens.len() {
            None
        } else {
            let t = clone_token(&self.tokens[self.pos]);
            self.pos = self.pos + 1;
            Some(t)
        }
    }
}

/// A stream position is never negative.
pub broadcast proof fn lemma_at_nonneg(l: Lexer)
    ensures
        #[trigger] l.at() >= 0,
{
}

/// Copy a token.
fn clone_token(t: &Token) -> (r: Token)
    ensures
        r@ == t@,
{
    match t {
        Token::Error => Token::Error,
        Token::Comma => Token::Comma,
        Token::Pipe => Token::Pipe,
        Token::Tilde => Token::Tilde,
        Token::LeftParenthesis => Token::LeftParenthesis,
        Token::RightParenthesis => Token::RightParenthesis,
        Token::Integer(v) => Token::Integer(*v),
        Token::String(bytes) => Token::String(crate::term::copy_vec(bytes)),
        Token::Identifier(bytes) => Token::Identifier(crate::term::copy_vec(bytes)),
    }
}

impl Token {
    /// Tokenise the whole input.
    pub fn lexer(input: &[u8]) -> (r: Lexer)
        ensures
            r.toks() == spec_lex(input@, 0),
            r.at() == 0,
    {
        let ghost s = input@;
        let mut tokens: Vec<Token> = Vec::new();
        let mut i: usize = 0;
        while i < input.len()
            invariant
                s == input@,
                i <= s.len(),
                spec_lex(s, 0) == tokens@.map_values(|t: Token| t@) + spec_lex(s, i as int),
            decreases s.len() - i,
        {
            // Skip whitespace.
            let b = input[i];
            if b == 9 || b == 10 || b == 11 || b == 12 || b == 13 || b == 32 {
                i = i + 1;
                proof {
                    lemma_scan_bounds(s, i as int);
                    lemma_skip_spaces_stops(s, i as int);
                    assert(skip_spaces(s, i - 1) == skip_spaces(s, i as int));
                    if 0 <= i as int && i as int <= skip_spaces(s, i as int) && skip_spaces(
                        s,
                        i as int,
                    ) < s.len() {
                        lemma_token_at_bounds(s, skip_spaces(s, i as int));
                    }
                    assert(spec_lex(s, i - 1) == spec_lex(s, i as int));
                }
                continue ;
            }
            let ghost entry = i as int;
            proof {
                assert(skip_spaces(s, entry) == entry);
            }
            let tok: Token;
            let mut nxt: usize;
            if b == 44 {
                tok = Token::Comma;
                nxt = i + 1;
            } else if b == 124 {
                tok = Token::Pipe;
                nxt = i + 1;
            } else if b == 126 {
                tok = Token::Tilde;
                nxt = i + 1;
            } else if b == 40 {
                tok = Token::LeftParenthesis;
                nxt = i + 1;
            } else if b == 41 {
                tok = Token::RightParenthesis;
                nxt = i + 1;
            } else if 48 <= b && b <= 57 {
                // A run of decimal digits.
                let mut value: u64 = 0;
                let mut over: bool = false;
                nxt = i;
                while nxt < input.len() && 48 <= input[nxt] && input[nxt] <= 57
                    invariant
                        s == input@,
                        i <= nxt <= s.len(),
                        digits_end(s, i as int) == digits_end(s, nxt as int),
                        forall|m: int| i <= m < nxt ==> is_digit(s[m]),
                        over <==> int_value(s, i as int, nxt as int) > 0x7FFF_FFFF,
                        !over ==> value == int_value(s, i as int, nxt as int),
                        value <= 0x7FFF_FFFF,
                    decreases s.len() - nxt,
                {
                    let d = input[nxt] - 48;
                    proof {
                        assert(int_value(s, i as int, nxt + 1) == int_value(s, i as int, nxt as int)
                            * 10 + (s[nxt as int] - 48));
                        if over {
                            assert(int_value(s, i as int, nxt as int) * 10 >= int_value(
                                s,
                                i as int,
                                nxt as int,
                            ));
                        }
                    }
                    if !over {
                        let next_value = value * 10 + (d as u64);
                        if next_value > 0x7FFF_FFFF {
                            over = true;
                            value = 0;
                        } else {
                            value = next_value;
                        }
                    }
                    nxt = nxt + 1;
                }
                proof {
                    assert(digits_end(s, nxt as int) == nxt as int);
                }
                if over {
                    tok = Token::Error;
                } else {
                    tok = Token::Integer(value as i32);
                }
            } else if b == 34 {
                // A double-quoted string.
                let mut j: usize = i + 1;
                while j < input.len() && input[j] != 34
                    invariant
                        s == input@,
                        i + 1 <= j <= s.len(),
                        quote_end(s, i + 1) == quote_end(s, j as int),
                    decreases s.len() - j,
                {
                    j = j + 1;
                }
                proof {
                    assert(quote_end(s, j as int) == j as int);
                }
                if j < input.len() && j > i + 1 {
                    let mut bytes: Vec<u8> = Vec::new();
                    let mut m: usize = i + 1;
                    while m < j
                        invariant
                            s == input@,
                            i + 1 <= m <= j <= s.len(),
                            bytes@ == s.subrange(i + 1, m as int),
                        decreases j - m,
                    {
                        bytes.push(input[m]);
                        m = m + 1;
                        proof {
                            assert(bytes@ =~= s.subrange(i + 1, m as int));
                        }
                    }
                    tok = Token::String(bytes);
                    nxt = j + 1;
                } else {
                    tok = Token::Error;
                    nxt = i + 1;
                }
            } else if (65 <= b && b <= 90) || (97 <= b && b <= 122) {
                // A run of letters.
                let mut j: usize = i;
                while j < input.len() && ((65 <= input[j] && input[j] <= 90) || (97 <= input[j]
                    && input[j] <= 122))
                    invariant
                        s == input@,
                        i <= j <= s.len(),
                        letters_end(s, i as int) == letters_end(s, j as int),
                    decreases s.len() - j,
                {
                    j = j + 1;
                }
                proof {
                    assert(letters_end(s, j as int) == j as int);
                }
                let mut bytes: Vec<u8> = Vec::new();
                let mut m: usize = i;
                while m < j
                    invariant
                        s == input@,
                        i <= m <= j <= s.len(),
                        bytes@ == s.subrange(i as int, m as int),
                    decreases j - m,
                {
                    bytes.push(input[m]);
                    m = m + 1;
                    proof {
                        assert(bytes@ =~= s.subrange(i as int, m as int));
                    }
                }
                tok = Token::Identifier(bytes);
                nxt = j;
            } else {
                tok = Token::Error;
                nxt = i + 1;
            }
            proof {
                lemma_token_at_bounds(s, entry);
                let (st, sn) = token_at(s, entry);
                assert(st == tok@ && sn == nxt as int);
                assert(spec_lex(s, entry) == Seq::empty().push(st) + spec_lex(s, sn));
                assert(tokens@.push(tok).map_values(|t: Token| t@) =~= tokens@.map_values(
                    |t: Token| t@,
                ).push(tok@));
                assert(spec_lex(s, 0) =~= tokens@.push(tok).map_values(|t: Token| t@) + spec_lex(
                    s,
                    nxt as int,
                ));
            }
            tokens.push(tok);
            i = nxt;
        }
        proof {
            assert(skip_spaces(s, i as int) == i as int);
            assert(spec_lex(s, i as int) =~= Seq::<TokenX>::empty());
            assert(tokens@.map_values(|t: Token| t@) + Seq::<TokenX>::empty() =~= tokens@.map_values(
                |t: Token| t@,
            ));
        }
        Lexer { tokens, pos: 0 }
    }
}

} // verus!
