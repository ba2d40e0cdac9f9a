//! Tokens and the scanner that reads a text into them.

use crate::encoding::{lemma_boundary_after_prefix, lemma_encoding_length, lemma_split_after_prefix};
use vstd::prelude::*;
use vstd::std_specs::iter::IteratorSpec;
use vstd::utf8::encode_utf8;

verus! {

/// The lexical class of a token.
#[derive(Clone, Copy, Debug, PartialEq, Eq, Structural)]
pub enum TokenType {
    Eof,
    Underscore,
    Star,
    Newline,
    Text,
}

/// The mathematical value of a token: its class and the characters it covers.
pub struct TokenView {
    pub kind: TokenType,
    pub text: Seq<char>,
}

/// An atomic lexical unit: a class together with the literal text it was read from.
pub struct Token {
    pub type_: TokenType,
    pub value: String,
}

impl View for Token {
    type V = TokenView;

    open spec fn view(&self) -> TokenView {
        TokenView { kind: self.type_, text: self.value@ }
    }
}

impl DeepView for Token {
    type V = TokenView;

    open spec fn deep_view(&self) -> TokenView {
        self@
    }
}

impl Token {
    /// A token of the given class and text.
    pub fn new(type_: TokenType, value: String) -> (token: Token)
        ensures
            token.type_ == type_,
            token.value == value,
    {
        Token { type_, value }
    }

    /// The length of the token's text in bytes.
    pub fn len(&self) -> (length: usize)
        ensures
            length == encode_utf8(self.value@).len(),
    {
        self.value.as_str().as_bytes().len()
    }

    /// The token that closes every token sequence.
    pub fn eof() -> (token: Token)
        ensures
            token@ == eof_token(),
    {
        Token { type_: TokenType::Eof, value: "<EOF>".to_owned() }
    }
}

/// The end-of-input token. Its text is a marker that stands for no input.
pub open spec fn eof_token() -> TokenView {
    TokenView { kind: TokenType::Eof, text: "<EOF>"@ }
}

/// The characters that are tokens by themselves.
pub open spec fn is_special(c: char) -> bool {
    c == '_' || c == '*' || c == '\n'
}

/// The class of the token that a special character makes.
pub open spec fn special_kind(c: char) -> TokenType {
    if c == '_' {
        TokenType::Underscore
    } else if c == '*' {
        TokenType::Star
    } else {
        TokenType::Newline
    }
}

/// The token of one special character at the front of `input`, if there is one.
pub open spec fn simple_scan(input: Seq<char>) -> Option<TokenView> {
    if input.len() > 0 && is_special(input[0]) {
        Some(TokenView { kind: special_kind(input[0]), text: input.take(1) })
    } else {
        None
    }
}

/// The number of characters at the front of `input` before the first special
/// character, or before the end.
pub open spec fn text_run(input: Seq<char>) -> nat
    decreases input.len(),
{
    if input.len() == 0 || is_special(input[0]) {
        0
    } else {
        1 + text_run(input.drop_first())
    }
}

/// The text token at the front of `input`: the longest run of ordinary
/// characters, if it is not empty.
pub open spec fn text_scan(input: Seq<char>) -> Option<TokenView> {
    if text_run(input) > 0 {
        Some(TokenView { kind: TokenType::Text, text: input.take(text_run(input) as int) })
    } else {
        None
    }
}

/// The first token of `input`: a special character, else a run of text.
pub open spec fn next_token(input: Seq<char>) -> Option<TokenView> {
    match simple_scan(input) {
        Some(token) => Some(token),
        None => text_scan(input),
    }
}

/// The tokens of `input`, one after another. Scanning stops where no token
/// can be read, which happens at the end of the input only.
pub open spec fn lex(input: Seq<char>) -> Seq<TokenView>
    decreases input.len(),
    via lex_terminates
{
    match next_token(input) {
        Some(token) => seq![token] + lex(input.skip(token.text.len() as int)),
        None => Seq::empty(),
    }
}

#[via_fn]
proof fn lex_terminates(input: Seq<char>) {
    lemma_next_token(input);
}

/// The token sequence of a document: its tokens, then the end-of-input token.
pub open spec fn token_stream(input: Seq<char>) -> Seq<TokenView> {
    lex(input).push(eof_token())
}

/// The texts of `tokens`, joined.
pub open spec fn joined_text(tokens: Seq<TokenView>) -> Seq<char> {
    tokens.map_values(|token: TokenView| token.text).flatten()
}

/// What `text_run` counts, said without recursion: the run lies within the
/// input, holds no special character, and ends at one or at the end.
pub proof fn lemma_text_run(input: Seq<char>)
    ensures
        text_run(input) <= input.len(),
        forall|i: int| 0 <= i < text_run(input) ==> !is_special(#[trigger] input[i]),
        text_run(input) < input.len() ==> is_special(input[text_run(input) as int]),
    decreases input.len(),
{
    if input.len() > 0 && !is_special(input[0]) {
        let tail = input.drop_first();
        lemma_text_run(tail);
        assert forall|i: int| 0 <= i < text_run(input) implies !is_special(
            #[trigger] input[i],
        ) by {
            if i > 0 {
                assert(input[i] == tail[i - 1]);
            }
        }
        if text_run(input) < input.len() {
            assert(input[text_run(input) as int] == tail[text_run(tail) as int]);
        }
    }
}

/// Every non-empty input starts with a token. The token is never the
/// end-of-input token, and its text is a non-empty prefix of the input.
pub proof fn lemma_next_token(input: Seq<char>)
    ensures
        next_token(input) is Some <==> input.len() > 0,
        next_token(input) matches Some(token) ==> {
            &&& token.kind != TokenType::Eof
            &&& 0 < token.text.len() <= input.len()
            &&& token.text == input.take(token.text.len() as int)
        },
{
    lemma_text_run(input);
}

/// Scanning loses nothing: the texts of the tokens of `input`, joined, are
/// `input`.
pub proof fn lemma_lex_round_trip(input: Seq<char>)
    ensures
        joined_text(lex(input)) == input,
    decreases input.len(),
{
    lemma_next_token(input);
    if let Some(token) = next_token(input) {
        let rest = input.skip(token.text.len() as int);
        lemma_lex_round_trip(rest);
        let texts = lex(input).map_values(|token: TokenView| token.text);
        let rest_texts = lex(rest).map_values(|token: TokenView| token.text);
        assert(texts.drop_first() =~= rest_texts);
        assert(token.text + rest =~= input);
    }
}

/// What a token of a document looks like: a special character by itself,
/// under its class, or a non-empty text without special characters.
pub open spec fn is_lexeme(token: TokenView) -> bool {
    ||| {
        &&& token.text.len() == 1
        &&& is_special(token.text[0])
        &&& token.kind == special_kind(token.text[0])
    }
    ||| {
        &&& token.kind == TokenType::Text
        &&& token.text.len() > 0
        &&& forall|i: int| 0 <= i < token.text.len() ==> !is_special(#[trigger] token.text[i])
    }
}

/// Every token of `lex` is a lexeme: none is the end-of-input token, and
/// none has an empty text.
pub proof fn lemma_lex_tokens(input: Seq<char>)
    ensures
        forall|i: int| 0 <= i < lex(input).len() ==> is_lexeme(#[trigger] lex(input)[i]),
    decreases input.len(),
{
    lemma_next_token(input);
    lemma_text_run(input);
    if let Some(token) = next_token(input) {
        let rest = input.skip(token.text.len() as int);
        lemma_lex_tokens(rest);
        assert forall|i: int| 0 <= i < lex(input).len() implies is_lexeme(
            #[trigger] lex(input)[i],
        ) by {
            if i > 0 {
                assert(lex(input)[i] == lex(rest)[i - 1]);
            }
        }
    }
}

/// Text tokens are as long as they can be: no text token follows another.
pub proof fn lemma_lex_longest_text(input: Seq<char>)
    ensures
        forall|i: int|
            0 <= i < lex(input).len() - 1 && (#[trigger] lex(input)[i]).kind == TokenType::Text
                ==> lex(input)[i + 1].kind != TokenType::Text,
    decreases input.len(),
{
    lemma_next_token(input);
    lemma_text_run(input);
    if let Some(token) = next_token(input) {
        let rest = input.skip(token.text.len() as int);
        lemma_lex_longest_text(rest);
        lemma_next_token(rest);
        assert forall|i: int|
            0 <= i < lex(input).len() - 1 && (#[trigger] lex(input)[i]).kind
                == TokenType::Text implies lex(input)[i + 1].kind != TokenType::Text by {
            assert(lex(input)[i + 1] == lex(rest)[i]);
            if i > 0 {
                assert(lex(input)[i] == lex(rest)[i - 1]);
            } else {
                // The text ends at a special character, which is the next token.
                assert(rest[0] == input[text_run(input) as int]);
            }
        }
    }
}

/// A token sequence ends with the end-of-input token and holds no other;
/// without it, its tokens are lexemes whose texts give back the input.
pub proof fn lemma_token_stream(input: Seq<char>)
    ensures
        token_stream(input).len() >= 1,
        token_stream(input).last() == eof_token(),
        forall|i: int|
            0 <= i < token_stream(input).len() - 1 ==> is_lexeme(#[trigger] token_stream(input)[i]),
        forall|i: int|
            0 <= i < token_stream(input).len() - 1 ==> (#[trigger] token_stream(input)[i]).kind
                != TokenType::Eof,
        joined_text(token_stream(input).drop_last()) == input,
{
    lemma_lex_tokens(input);
    lemma_lex_round_trip(input);
    assert(token_stream(input).drop_last() =~= lex(input));
    assert forall|i: int| 0 <= i < token_stream(input).len() - 1 implies is_lexeme(
        #[trigger] token_stream(input)[i],
    ) && token_stream(input)[i].kind != TokenType::Eof by {
        assert(token_stream(input)[i] == lex(input)[i]);
    }
}

/// A strategy that reads one token from the front of the input.
pub trait Scanner {
    /// The token that the strategy reads from `input`, if it applies.
    spec fn scanned(input: Seq<char>) -> Option<TokenView>;

    /// Reads the token, or finds that the strategy does not apply.
    fn scan(input: &str) -> (result: Option<Token>)
        ensures
            result.deep_view() == Self::scanned(input@),
    ;
}

/// Reads a special character as a token by itself.
pub struct SimpleScanner;

/// Reads the longest run of ordinary characters as one text token.
pub struct TextScanner;

/// Whether `c` is a token by itself.
fn special(c: char) -> (yes: bool)
    ensures
        yes == is_special(c),
{
    c == '_' || c == '*' || c == '\n'
}

impl Scanner for SimpleScanner {
    open spec fn scanned(input: Seq<char>) -> Option<TokenView> {
        simple_scan(input)
    }

    fn scan(input: &str) -> (result: Option<Token>) {
        if input.is_empty() {
            return None;
        }
        let first_char = input.get_char(0);
        let token_type = match first_char {
            '_' => TokenType::Underscore,
            '*' => TokenType::Star,
            '\n' => TokenType::Newline,
            _ => {
                return None;
            },
        };
        Some(Token::new(token_type, input.substring_char(0, 1).to_owned()))
    }
}

impl Scanner for TextScanner {
    open spec fn scanned(input: Seq<char>) -> Option<TokenView> {
        text_scan(input)
    }

    fn scan(input: &str) -> (result: Option<Token>) {
        // There are no more characters than bytes, so the count stays below
        // this limit.
        let limit: usize = input.as_bytes().len();
        proof {
            lemma_encoding_length(input@);
            assert(input@.skip(0) =~= input@);
        }
        let mut chars = input.chars();
        let mut count: usize = 0;
        while count < limit
            invariant_except_break
                chars.remaining() == input@.skip(count as int),
                text_run(input@) == count + text_run(input@.skip(count as int)),
            invariant
                count <= input@.len() <= limit,
            ensures
                count == text_run(input@),
                count <= input@.len(),
            decreases limit - count,
        {
            match chars.next() {
                Some(c) => {
                    if special(c) {
                        break ;
                    }
                    count += 1;
                },
                None => {
                    break ;
                },
            }
        }
        if count == 0 {
            None
        } else {
            Some(Token::new(TokenType::Text, input.substring_char(0, count).to_owned()))
        }
    }
}

/// The scanner of whole documents.
pub struct Tokenizer;

impl Tokenizer {
    /// Reads `plain_markdown` into its tokens, closed by the end-of-input
    /// token. Every input can be read, and no character of it is lost.
    pub fn tokenize(plain_markdown: &str) -> (tokens: Vec<Token>)
        ensures
            tokens.deep_view() == token_stream(plain_markdown@),
            tokens.len() >= 1,
            tokens.deep_view().last() == eof_token(),
            joined_text(tokens.deep_view().drop_last()) == plain_markdown@,
    {
        let mut tokens: Vec<Token> = Vec::new();
        let mut remaining = plain_markdown;
        while !remaining.is_empty()
            invariant
                lex(plain_markdown@) == tokens.deep_view() + lex(remaining@),
            ensures
                lex(plain_markdown@) == tokens.deep_view(),
            decreases remaining@.len(),
        {
            proof {
                lemma_next_token(remaining@);
            }
            if let Some(token) = Self::scan_one_token(remaining) {
                let ghost text = token.value@;
                let ghost rest = remaining@.skip(text.len() as int);
                proof {
                    assert(remaining@ =~= text + rest);
                    lemma_boundary_after_prefix(text, rest);
                }
                let (_, tail) = remaining.split_at(token.len());
                proof {
                    lemma_split_after_prefix(text, rest, tail@);
                }
                remaining = tail;
                tokens.push(token);
            } else {
                // Nothing can be read here: the scan stops early. By
                // `lemma_next_token` this is never the case.
                break ;
            }
        }
        tokens.push(Token::eof());
        proof {
            assert(tokens.deep_view() =~= token_stream(plain_markdown@));
            lemma_token_stream(plain_markdown@);
        }
        tokens
    }

    /// Reads the first token of `input`: a special character, else a run of text.
    pub fn scan_one_token(input: &str) -> (result: Option<Token>)
        ensures
            result.deep_view() == next_token(input@),
    {
        match SimpleScanner::scan(input) {
            Some(token) => Some(token),
            None => TextScanner::scan(input),
        }
    }
}

} // verus!
