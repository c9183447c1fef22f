//! The tokenizer: a lazy, finite, non-restartable producer of tokens.
//!
//! Each pull inspects at most one character ahead, consumes the input of
//! exactly one token (plus any skipped whitespace), and either produces
//! a token or signals that the stream has ended.  The whole behaviour of
//! one pull is captured by the spec function [`spec_step`], which every
//! pull of [`Lexer::next`] is proved to follow.

use vstd::prelude::*;

use crate::chars::{
    char_alphabetic, char_numeric, is_whitespace_char, spec_alphabetic, spec_numeric,
    spec_whitespace,
};
use crate::numeric::{is_float_lexeme, parse_int_lexeme, spec_float_lexeme, spec_int_lexeme,
    spec_int_value};
use crate::token::{token_of_read, LexToken, TokenModel, pulled_view};

verus! {

/// Whether a character ends an identifier or numeric lexeme without
/// belonging to it: whitespace, a parenthesis, a semicolon, a colon or a
/// quote.
pub open spec fn spec_delimiter(c: char) -> bool {
    ||| spec_whitespace(c)
    ||| c == '('
    ||| c == ')'
    ||| c == ';'
    ||| c == ':'
    ||| c == '"'
}

/// Whether a character ends an identifier or numeric lexeme.
pub fn is_delimiter(c: char) -> (r: bool)
    ensures
        r == spec_delimiter(c),
{
    is_whitespace_char(c) || c == '(' || c == ')' || c == ';' || c == ':' || c == '"'
}

/// The longest prefix free of delimiters: the next identifier or numeric
/// lexeme of the remaining input.
pub open spec fn take_lexeme(s: Seq<char>) -> Seq<char>
    decreases s.len(),
{
    if s.len() == 0 || spec_delimiter(s[0]) {
        Seq::empty()
    } else {
        seq![s[0]] + take_lexeme(s.drop_first())
    }
}

/// The longest prefix free of quotes: the body of a string literal whose
/// opening quote has been consumed.
pub open spec fn take_str_body(s: Seq<char>) -> Seq<char>
    decreases s.len(),
{
    if s.len() == 0 || s[0] == '"' {
        Seq::empty()
    } else {
        seq![s[0]] + take_str_body(s.drop_first())
    }
}

/// The outcome of one pull: the token produced, if any, and the input
/// that remains.
pub ghost struct Pulled {
    /// The token produced, or nothing when the stream has ended.
    pub token: Option<TokenModel>,
    /// The input left after the pull.
    pub rest: Seq<char>,
}

/// The outcome of reading an identifier or keyword at the head of `s`:
/// an empty lexeme is an error and consumes nothing; the lexeme `let` is
/// the reserved word; any other lexeme is an identifier.
pub open spec fn spec_read_ident(s: Seq<char>) -> Pulled {
    let lex = take_lexeme(s);
    if lex.len() == 0 {
        Pulled { token: Some(TokenModel::Error("Read empty identifier"@)), rest: s }
    } else if lex == "let"@ {
        Pulled { token: Some(TokenModel::Let), rest: s.skip(lex.len() as int) }
    } else {
        Pulled { token: Some(TokenModel::Ident(lex)), rest: s.skip(lex.len() as int) }
    }
}

/// The outcome of reading a numeric literal at the head of `s`: the
/// lexeme is tried as a decimal integer, then as a decimal float; if
/// both fail the lexeme is consumed and an error token is produced.
pub open spec fn spec_read_numeric(s: Seq<char>) -> Pulled {
    let lex = take_lexeme(s);
    if lex.len() == 0 {
        Pulled { token: Some(TokenModel::Error("Read empty identifier"@)), rest: s }
    } else {
        let rest = s.skip(lex.len() as int);
        if spec_int_lexeme(lex) {
            Pulled { token: Some(TokenModel::IntLiteral(spec_int_value(lex))), rest }
        } else if spec_float_lexeme(lex) {
            Pulled { token: Some(TokenModel::FloatLiteral(lex)), rest }
        } else {
            Pulled {
                token: Some(TokenModel::Error("Could not parse '{}' to Numeric Literal."@)),
                rest,
            }
        }
    }
}

/// The outcome of reading a string literal body at the head of `s`, the
/// opening quote already consumed: on a closing quote, the body becomes
/// a string token and the quote is consumed too; if the input ends
/// first, everything is consumed and an error token is produced.
pub open spec fn spec_read_string(s: Seq<char>) -> Pulled {
    let body = take_str_body(s);
    if body.len() < s.len() {
        Pulled { token: Some(TokenModel::StrLiteral(body)), rest: s.skip(body.len() as int + 1) }
    } else {
        Pulled { token: Some(TokenModel::Error("Read a string to EOF"@)), rest: s.skip(
            body.len() as int,
        ) }
    }
}

/// One pull of the tokenizer on the remaining input `s`: a one-character
/// token for `=`, `;`, `:`, `+`, `(` or `)`; a string literal after a
/// quote; whitespace skipped transparently; an identifier or keyword
/// after an alphabetic character; a numeric literal after a numeric
/// character; otherwise the stream ends, consuming nothing.
pub open spec fn spec_step(s: Seq<char>) -> Pulled
    decreases s.len(),
{
    if s.len() == 0 {
        Pulled { token: None, rest: s }
    } else {
        let c = s[0];
        if c == '=' {
            Pulled { token: Some(TokenModel::Equals), rest: s.drop_first() }
        } else if c == ';' {
            Pulled { token: Some(TokenModel::SemiColon), rest: s.drop_first() }
        } else if c == ':' {
            Pulled { token: Some(TokenModel::Colon), rest: s.drop_first() }
        } else if c == '+' {
            Pulled { token: Some(TokenModel::Plus), rest: s.drop_first() }
        } else if c == '(' {
            Pulled { token: Some(TokenModel::LParam), rest: s.drop_first() }
        } else if c == ')' {
            Pulled { token: Some(TokenModel::RParam), rest: s.drop_first() }
        } else if c == '"' {
            spec_read_string(s.drop_first())
        } else if spec_whitespace(c) {
            spec_step(s.drop_first())
        } else if spec_alphabetic(c) {
            spec_read_ident(s)
        } else if spec_numeric(c) {
            spec_read_numeric(s)
        } else {
            Pulled { token: None, rest: s }
        }
    }
}

/// The tokenizer.  It owns the source characters and a cursor; its view
/// is the remaining input, over which [`spec_step`] describes each pull.
pub struct Lexer {
    input: Vec<char>,
    pos: usize,
}

impl View for Lexer {
    type V = Seq<char>;

    /// The input not yet consumed.
    closed spec fn view(&self) -> Seq<char> {
        self.input@.skip(self.pos as int)
    }
}

impl Lexer {
    /// The cursor never passes the end of the input.
    pub closed spec fn wf(&self) -> bool {
        self.pos <= self.input.len()
    }

    /// Makes a tokenizer over the full source text.
    pub fn new(src: Vec<char>) -> (l: Lexer)
        ensures
            l.wf(),
            l@ == src@,
    {
        let l = Lexer { input: src, pos: 0 };
        proof {
            assert(l@ =~= l.input@);
        }
        l
    }

    /// The next character, if any, without consuming it.
    fn peek(&self) -> (r: Option<char>)
        requires
            self.wf(),
        ensures
            r == (if self@.len() > 0 {
                Some(self@[0])
            } else {
                None::<char>
            }),
    {
        if self.pos < self.input.len() {
            Some(self.input[self.pos])
        } else {
            None
        }
    }

    /// Consumes one character.
    fn advance(&mut self)
        requires
            old(self).wf(),
            old(self)@.len() > 0,
        ensures
            final(self).wf(),
            final(self)@ == old(self)@.drop_first(),
    {
        proof {
            assert(self.input@.skip(self.pos + 1) =~= self.input@.skip(self.pos as int).drop_first());
        }
        self.pos = self.pos + 1;
    }

    /// Produces the next token, or signals that the stream has ended.
    /// One pull behaves exactly as [`spec_step`] on the remaining input:
    /// the token matches and the rest of the input is what the step
    /// leaves.  End of stream is permanent: a pull that produces nothing
    /// consumes nothing.
    pub fn next(&mut self) -> (t: Option<LexToken>)
        requires
            old(self).wf(),
        ensures
            final(self).wf(),
            pulled_view(t) == spec_step(old(self)@).token,
            final(self)@ == spec_step(old(self)@).rest,
    {
        loop
            invariant
                self.wf(),
                spec_step(self@) == spec_step(old(self)@),
            decreases self@.len(),
        {
            let c = match self.peek() {
                None => { return None; },
                Some(c) => c,
            };
            if c == '=' {
                self.advance();
                return Some(LexToken::Equals);
            } else if c == ';' {
                self.advance();
                return Some(LexToken::SemiColon);
            } else if c == ':' {
                self.advance();
                return Some(LexToken::Colon);
            } else if c == '+' {
                self.advance();
                return Some(LexToken::Plus);
            } else if c == '(' {
                self.advance();
                return Some(LexToken::LParam);
            } else if c == ')' {
                self.advance();
                return Some(LexToken::RParam);
            } else if c == '"' {
                self.advance();
                let r = read_string(self);
                return Some(unwrap_or_error(r));
            } else if is_whitespace_char(c) {
                self.advance();
            } else if char_alphabetic(c) {
                let r = read_to_ident_or_keyword(self);
                return Some(unwrap_or_error(r));
            } else if char_numeric(c) {
                let r = read_numeric(self);
                return Some(unwrap_or_error(r));
            } else {
                return None;
            }
        }
    }
}

/// A reader's failure message becomes an error token, and the stream
/// goes on.
fn unwrap_or_error(r: Result<LexToken, String>) -> (t: LexToken)
    ensures
        t@ == token_of_read(r),
{
    match r {
        Ok(t) => t,
        Err(m) => LexToken::Error(m),
    }
}

/// Reads the maximal run of non-delimiter characters as raw characters.
fn lexeme_chars(l: &mut Lexer) -> (v: Vec<char>)
    requires
        old(l).wf(),
    ensures
        final(l).wf(),
        v@ == take_lexeme(old(l)@),
        final(l)@ == old(l)@.skip(v@.len() as int),
{
    let mut v: Vec<char> = Vec::new();
    proof {
        assert(old(l)@.skip(0) =~= old(l)@);
    }
    loop
        invariant
            l.wf(),
            take_lexeme(old(l)@) == v@ + take_lexeme(l@),
            l@ == old(l)@.skip(v@.len() as int),
            v@.len() + l@.len() == old(l)@.len(),
        ensures
            l.wf(),
            take_lexeme(l@).len() == 0,
            take_lexeme(old(l)@) == v@ + take_lexeme(l@),
            l@ == old(l)@.skip(v@.len() as int),
            v@.len() + l@.len() == old(l)@.len(),
        decreases l@.len(),
    {
        let c = match l.peek() {
            None => { break ; },
            Some(c) => c,
        };
        if is_delimiter(c) {
            break ;
        }
        let ghost prev = l@;
        l.advance();
        v.push(c);
        proof {
            assert(take_lexeme(prev) == seq![c] + take_lexeme(prev.drop_first()));
            assert(v@ + take_lexeme(l@) =~= v@.drop_last() + (seq![c] + take_lexeme(l@)));
            assert(old(l)@.skip(v@.len() as int) =~= old(l)@.skip(v@.len() - 1).drop_first());
        }
    }
    proof {
        assert(take_lexeme(old(l)@) =~= v@);
    }
    v
}

/// Turns accumulated characters into an owned string.
fn string_of_chars(v: &Vec<char>) -> (s: String)
    ensures
        s@ == v@,
{
    let mut s = String::new();
    let mut i: usize = 0;
    while i < v.len()
        invariant
            i <= v.len(),
            s@ == v@.take(i as int),
        decreases v.len() - i,
    {
        push_char(&mut s, v[i]);
        proof {
            assert(v@.take(i as int).push(v@[i as int]) =~= v@.take(i + 1));
        }
        i = i + 1;
    }
    proof {
        assert(v@.take(v@.len() as int) =~= v@);
    }
    s
}

/// Relies on `String::push`: appends the given character to the end of
/// the string.
#[verifier::external_body]
fn push_char(s: &mut String, c: char)
    ensures
        final(s)@ == old(s)@.push(c),
{
    s.push(c);
}

/// Reads the maximal run of non-delimiter characters.  An empty run is
/// an error (`Read empty identifier`) and consumes nothing; otherwise
/// the lexeme is returned and consumed.
pub fn read_to_delimiter(l: &mut Lexer) -> (r: Result<String, String>)
    requires
        old(l).wf(),
    ensures
        final(l).wf(),
        take_lexeme(old(l)@).len() == 0 ==> (r matches Err(m) && m@ == "Read empty identifier"@)
            && final(l)@ == old(l)@,
        take_lexeme(old(l)@).len() > 0 ==> (r matches Ok(s) && s@ == take_lexeme(old(l)@))
            && final(l)@ == old(l)@.skip(take_lexeme(old(l)@).len() as int),
{
    let v = lexeme_chars(l);
    if v.len() == 0 {
        proof {
            assert(old(l)@.skip(0) =~= old(l)@);
        }
        Err("Read empty identifier".to_owned())
    } else {
        Ok(string_of_chars(&v))
    }
}

/// Reads a lexeme and resolves it against the keyword table: the
/// reserved word `let` yields its marker token, anything else an
/// identifier token carrying the raw lexeme.
pub fn read_to_ident_or_keyword(l: &mut Lexer) -> (r: Result<LexToken, String>)
    requires
        old(l).wf(),
    ensures
        final(l).wf(),
        Some(token_of_read(r)) == spec_read_ident(old(l)@).token,
        final(l)@ == spec_read_ident(old(l)@).rest,
{
    let s = match read_to_delimiter(l) {
        Ok(s) => s,
        Err(e) => { return Err(e); },
    };
    let keyword: String = "let".to_owned();
    if s == keyword {
        Ok(LexToken::Let)
    } else {
        Ok(LexToken::Ident(s))
    }
}

/// Reads a string literal body up to the next quote.  The closing quote
/// is consumed with the body; input ending first is an error (`Read a
/// string to EOF`) after everything was consumed.
pub fn read_string(l: &mut Lexer) -> (r: Result<LexToken, String>)
    requires
        old(l).wf(),
    ensures
        final(l).wf(),
        Some(token_of_read(r)) == spec_read_string(old(l)@).token,
        final(l)@ == spec_read_string(old(l)@).rest,
{
    let mut v: Vec<char> = Vec::new();
    proof {
        assert(old(l)@.skip(0) =~= old(l)@);
    }
    loop
        invariant
            l.wf(),
            take_str_body(old(l)@) == v@ + take_str_body(l@),
            l@ == old(l)@.skip(v@.len() as int),
            v@.len() + l@.len() == old(l)@.len(),
        ensures
            l.wf(),
            take_str_body(l@).len() == 0,
            take_str_body(old(l)@) == v@ + take_str_body(l@),
            l@ == old(l)@.skip(v@.len() as int),
            v@.len() + l@.len() == old(l)@.len(),
        decreases l@.len(),
    {
        let c = match l.peek() {
            None => { break ; },
            Some(c) => c,
        };
        if c == '"' {
            break ;
        }
        let ghost prev = l@;
        l.advance();
        v.push(c);
        proof {
            assert(take_str_body(prev) == seq![c] + take_str_body(prev.drop_first()));
            assert(v@ + take_str_body(l@) =~= v@.drop_last() + (seq![c] + take_str_body(l@)));
            assert(old(l)@.skip(v@.len() as int) =~= old(l)@.skip(v@.len() - 1).drop_first());
        }
    }
    proof {
        assert(take_str_body(old(l)@) =~= v@);
    }
    match l.peek() {
        None => Err("Read a string to EOF".to_owned()),
        Some(_) => {
            l.advance();
            proof {
                assert(old(l)@.skip(v@.len() as int).drop_first() =~= old(l)@.skip(
                    v@.len() as int + 1,
                ));
            }
            Ok(LexToken::StrLiteral(string_of_chars(&v)))
        },
    }
}

/// Reads a lexeme and builds a numeric literal token: first tried as a
/// signed 64-bit decimal integer, then as a decimal float whose lexeme
/// text is kept verbatim; if both fail, an error is produced and the
/// lexeme is consumed.
pub fn read_numeric(l: &mut Lexer) -> (r: Result<LexToken, String>)
    requires
        old(l).wf(),
    ensures
        final(l).wf(),
        Some(token_of_read(r)) == spec_read_numeric(old(l)@).token,
        final(l)@ == spec_read_numeric(old(l)@).rest,
{
    let v = lexeme_chars(l);
    if v.len() == 0 {
        proof {
            assert(old(l)@.skip(0) =~= old(l)@);
        }
        return Err("Read empty identifier".to_owned());
    }
    match parse_int_lexeme(&v) {
        Some(i) => Ok(LexToken::IntLiteral(i)),
        None => {
            if is_float_lexeme(&v) {
                Ok(LexToken::FloatLiteral(string_of_chars(&v)))
            } else {
                Err("Could not parse '{}' to Numeric Literal.".to_owned())
            }
        },
    }
}

} // verus!
