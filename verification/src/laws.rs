//! The stream-level laws of the tokenizer, proved over [`spec_step`],
//! the model that every pull of [`crate::lexer::Lexer::next`] follows.

use vstd::prelude::*;

use crate::chars::spec_whitespace;
use crate::lexer::{
    spec_delimiter, spec_read_ident, spec_read_numeric, spec_read_string, spec_step, take_lexeme,
    take_str_body, Pulled,
};
use crate::numeric::{all_digits, dec_value, lemma_dec_value_nonneg, lemma_digits_prefix_is};
use crate::token::TokenModel;

verus! {

/// A lexeme of non-delimiter characters followed by a delimiter, or by
/// the end of the input, is read whole and exactly.
pub proof fn lemma_take_lexeme_exact(w: Seq<char>, rest: Seq<char>)
    requires
        forall|i: int| 0 <= i < w.len() ==> !spec_delimiter(#[trigger] w[i]),
        rest.len() == 0 || spec_delimiter(rest[0]),
    ensures
        take_lexeme(w + rest) == w,
    decreases w.len(),
{
    if w.len() == 0 {
        assert(w + rest =~= rest);
        assert(take_lexeme(w + rest) =~= w);
    } else {
        assert((w + rest)[0] == w[0]);
        assert((w + rest).drop_first() =~= w.drop_first() + rest);
        lemma_take_lexeme_exact(w.drop_first(), rest);
        assert(take_lexeme(w + rest) =~= w);
    }
}

/// A string body free of quotes, followed by a quote or by the end of
/// the input, is read whole and exactly.
pub proof fn lemma_take_str_body_exact(w: Seq<char>, rest: Seq<char>)
    requires
        forall|i: int| 0 <= i < w.len() ==> #[trigger] w[i] != '"',
        rest.len() == 0 || rest[0] == '"',
    ensures
        take_str_body(w + rest) == w,
    decreases w.len(),
{
    if w.len() == 0 {
        assert(w + rest =~= rest);
        assert(take_str_body(w + rest) =~= w);
    } else {
        assert((w + rest)[0] == w[0]);
        assert((w + rest).drop_first() =~= w.drop_first() + rest);
        lemma_take_str_body_exact(w.drop_first(), rest);
        assert(take_str_body(w + rest) =~= w);
    }
}

/// Input made of whitespace alone produces no token: the stream is
/// empty, and all of the input is consumed skipping it.
pub proof fn lemma_whitespace_only(s: Seq<char>)
    requires
        forall|i: int| 0 <= i < s.len() ==> spec_whitespace(#[trigger] s[i]),
    ensures
        spec_step(s).token is None,
        spec_step(s).rest.len() == 0,
    decreases s.len(),
{
    if s.len() > 0 {
        assert(spec_whitespace(s[0]));
        assert(forall|i: int| 0 <= i < s.drop_first().len() ==> spec_whitespace(
            #[trigger] s.drop_first()[i],
        ));
        lemma_whitespace_only(s.drop_first());
    }
}

/// A single well-formed quoted string with no embedded quote yields
/// exactly one string token carrying the body verbatim, and then the
/// stream has ended.
pub proof fn lemma_single_quoted_string(body: Seq<char>)
    requires
        forall|i: int| 0 <= i < body.len() ==> #[trigger] body[i] != '"',
    ensures
        spec_step(seq!['"'] + body + seq!['"']).token == Some(TokenModel::StrLiteral(body)),
        spec_step(seq!['"'] + body + seq!['"']).rest.len() == 0,
        spec_step(spec_step(seq!['"'] + body + seq!['"']).rest).token is None,
{
    let s = seq!['"'] + body + seq!['"'];
    assert(s[0] == '"');
    let s1 = s.drop_first();
    assert(s1 =~= body + seq!['"']);
    lemma_take_str_body_exact(body, seq!['"']);
    assert(take_str_body(s1) == body);
    assert(s1.skip(body.len() as int + 1) =~= Seq::<char>::empty());
}

/// An opening quote never matched by a closing one yields exactly one
/// error token, all input is consumed, and then the stream has ended.
pub proof fn lemma_unterminated_string(body: Seq<char>)
    requires
        forall|i: int| 0 <= i < body.len() ==> #[trigger] body[i] != '"',
    ensures
        spec_step(seq!['"'] + body).token == Some(TokenModel::Error("Read a string to EOF"@)),
        spec_step(seq!['"'] + body).rest.len() == 0,
        spec_step(spec_step(seq!['"'] + body).rest).token is None,
{
    let s = seq!['"'] + body;
    assert(s[0] == '"');
    let s1 = s.drop_first();
    assert(s1 =~= body + Seq::<char>::empty());
    lemma_take_str_body_exact(body, Seq::<char>::empty());
    assert(s1 =~= body);
    assert(take_str_body(s1) == body);
    assert(s1.skip(body.len() as int) =~= Seq::<char>::empty());
}

/// No decimal digit is a delimiter.
proof fn lemma_digits_not_delimiters(ds: Seq<char>)
    requires
        all_digits(ds),
    ensures
        forall|i: int| 0 <= i < ds.len() ==> !spec_delimiter(#[trigger] ds[i]),
{
}

/// A lexeme of decimal digits whose value fits in a signed 64-bit
/// integer, standing before a delimiter or the end of the input, is
/// produced as one integer token with exactly that value.
pub proof fn lemma_integer_lexeme(ds: Seq<char>, rest: Seq<char>)
    requires
        ds.len() > 0,
        all_digits(ds),
        dec_value(ds) <= i64::MAX,
        rest.len() == 0 || spec_delimiter(rest[0]),
    ensures
        spec_step(ds + rest).token == Some(TokenModel::IntLiteral(dec_value(ds))),
        spec_step(ds + rest).rest == rest,
{
    let s = ds + rest;
    lemma_digits_not_delimiters(ds);
    lemma_take_lexeme_exact(ds, rest);
    assert(s[0] == ds[0]);
    lemma_dec_value_nonneg(ds);
    assert(s.skip(ds.len() as int) =~= rest);
}

/// A lexeme of digits, a decimal point and further digits, standing
/// before a delimiter or the end of the input, is produced as one float
/// token carrying the lexeme verbatim.
pub proof fn lemma_fractional_lexeme(a: Seq<char>, b: Seq<char>, rest: Seq<char>)
    requires
        a.len() > 0,
        b.len() > 0,
        all_digits(a),
        all_digits(b),
        rest.len() == 0 || spec_delimiter(rest[0]),
    ensures
        spec_step(a + seq!['.'] + b + rest).token == Some(
            TokenModel::FloatLiteral(a + seq!['.'] + b),
        ),
        spec_step(a + seq!['.'] + b + rest).rest == rest,
{
    let lex = a + seq!['.'] + b;
    let s = lex + rest;
    assert(forall|i: int| 0 <= i < lex.len() ==> !spec_delimiter(#[trigger] lex[i])) by {
        assert(forall|i: int| 0 <= i < a.len() ==> lex[i] == a[i]);
        assert(lex[a.len() as int] == '.');
        assert(forall|i: int| a.len() + 1 <= i < lex.len() ==> lex[i] == b[i - a.len() - 1]);
    }
    lemma_take_lexeme_exact(lex, rest);
    assert(s[0] == lex[0] && lex[0] == a[0]);
    // the lexeme is not an integer: the point is not a digit
    assert(lex[a.len() as int] == '.');
    assert(!all_digits(lex));
    // the lexeme is a float number: digits, a point, digits, no exponent
    lemma_digits_prefix_is(lex, a.len() as int);
    assert(lex.skip(a.len() as int) =~= seq!['.'] + b);
    assert(lex.skip(a.len() as int).drop_first() =~= b);
    lemma_digits_prefix_is(b, b.len() as int);
    assert(b.skip(b.len() as int) =~= Seq::<char>::empty());
    assert(s.skip(lex.len() as int) =~= rest);
}

/// The lexeme `let` standing before a delimiter or the end of the input
/// is always produced as the reserved-word token, never as an
/// identifier, whatever context surrounds it.
pub proof fn lemma_keyword_precedence(rest: Seq<char>)
    requires
        rest.len() == 0 || spec_delimiter(rest[0]),
    ensures
        spec_step("let"@ + rest).token == Some(TokenModel::Let),
        spec_step("let"@ + rest).rest == rest,
{
    reveal_strlit("let");
    let w = "let"@;
    let s = w + rest;
    assert(w.len() == 3 && w[0] == 'l' && w[1] == 'e' && w[2] == 't');
    assert(forall|i: int| 0 <= i < w.len() ==> !spec_delimiter(#[trigger] w[i]));
    lemma_take_lexeme_exact(w, rest);
    assert(s[0] == 'l');
    assert(s.skip(w.len() as int) =~= rest);
}

/// The token of a one-character delimiter or operator, if the character
/// is one.
pub open spec fn literal_token(c: char) -> Option<TokenModel> {
    if c == '=' {
        Some(TokenModel::Equals)
    } else if c == ';' {
        Some(TokenModel::SemiColon)
    } else if c == ':' {
        Some(TokenModel::Colon)
    } else if c == '+' {
        Some(TokenModel::Plus)
    } else if c == '(' {
        Some(TokenModel::LParam)
    } else if c == ')' {
        Some(TokenModel::RParam)
    } else {
        None
    }
}

/// Two adjacent one-character delimiters with nothing between them
/// yield exactly their two tokens, in order, with no error or other
/// token in between.
pub proof fn lemma_adjacent_delimiters(c1: char, c2: char, rest: Seq<char>)
    requires
        literal_token(c1) is Some,
        literal_token(c2) is Some,
    ensures
        spec_step(seq![c1, c2] + rest).token == literal_token(c1),
        spec_step(seq![c1, c2] + rest).rest == seq![c2] + rest,
        spec_step(seq![c2] + rest).token == literal_token(c2),
        spec_step(seq![c2] + rest).rest == rest,
{
    let s = seq![c1, c2] + rest;
    assert(s[0] == c1);
    assert(s.drop_first() =~= seq![c2] + rest);
    assert((seq![c2] + rest)[0] == c2);
    assert((seq![c2] + rest).drop_first() =~= rest);
}

/// End of stream is permanent: once a pull produces no token, every
/// later pull produces no token either and leaves the input where it
/// stands.
pub proof fn lemma_end_is_permanent(s: Seq<char>)
    requires
        spec_step(s).token is None,
    ensures
        spec_step(spec_step(s).rest).token is None,
        spec_step(spec_step(s).rest).rest == spec_step(s).rest,
    decreases s.len(),
{
    if s.len() == 0 {
    } else if spec_whitespace(s[0]) && s[0] != '=' && s[0] != ';' && s[0] != ':' && s[0] != '+'
        && s[0] != '(' && s[0] != ')' && s[0] != '"' {
        lemma_end_is_permanent(s.drop_first());
    }
}

} // verus!
