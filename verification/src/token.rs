//! Tokens of the source language.

use rust_forth_tokenizer::ForthToken;
use rust_forth_tokenizer::ForthTokenizer;
use vstd::prelude::*;

verus! {

/// One token of a source text.
#[derive(Debug, PartialEq, Eq)]
pub enum Token {
    Number(i64),
    Command(String),
    Colon,
    SemiColon,
    LineComment(String),
    BlockComment(String),
    /// The command that introduces the string, then the string.
    StringLiteral(String, String),
}

/// A token as the contracts see it: texts are sequences of characters.
pub enum SpecToken {
    Number(i64),
    Command(Seq<char>),
    Colon,
    SemiColon,
    LineComment(Seq<char>),
    BlockComment(Seq<char>),
    StringLiteral(Seq<char>, Seq<char>),
}

impl View for Token {
    type V = SpecToken;

    open spec fn view(&self) -> SpecToken {
        match self {
            Token::Number(n) => SpecToken::Number(*n),
            Token::Command(name) => SpecToken::Command(name@),
            Token::Colon => SpecToken::Colon,
            Token::SemiColon => SpecToken::SemiColon,
            Token::LineComment(text) => SpecToken::LineComment(text@),
            Token::BlockComment(text) => SpecToken::BlockComment(text@),
            Token::StringLiteral(kind, text) => SpecToken::StringLiteral(kind@, text@),
        }
    }
}

impl DeepView for Token {
    type V = SpecToken;

    open spec fn deep_view(&self) -> SpecToken {
        self@
    }
}

impl Clone for Token {
    fn clone(&self) -> (copy: Token)
        ensures
            copy@ == self@,
    {
        match self {
            Token::Number(n) => Token::Number(*n),
            Token::Command(name) => Token::Command(name.clone()),
            Token::Colon => Token::Colon,
            Token::SemiColon => Token::SemiColon,
            Token::LineComment(text) => Token::LineComment(text.clone()),
            Token::BlockComment(text) => Token::BlockComment(text.clone()),
            Token::StringLiteral(kind, text) => Token::StringLiteral(kind.clone(), text.clone()),
        }
    }
}

impl Token {
    /// Whether the token closes a definition.
    pub fn is_semicolon(&self) -> (closes: bool)
        ensures
            closes == (self@ is SemiColon),
    {
        match self {
            Token::SemiColon => true,
            _ => false,
        }
    }
}

/// White space of ASCII.
pub open spec fn is_white(c: char) -> bool {
    c == ' ' || c == '\t' || c == '\n' || c == '\x0C' || c == '\r'
}

/// Whether `c` can end a piece of source text for the tokenizer: white space
/// of ASCII, a closing parenthesis, a double quote.
pub open spec fn is_delimiter(c: char) -> bool {
    is_white(c) || c == ')' || c == '"'
}

/// The texts on which the tokenizer never stops abnormally: those that do
/// not end in a delimiter. (It stops abnormally where the delimiter of its
/// last token is the last character of the text.)
pub open spec fn tokenizer_accepts(source: Seq<char>) -> bool {
    source.len() == 0 || !is_delimiter(source.last())
}

/// `source` without the white space at its end.
pub open spec fn trimmed(source: Seq<char>) -> Seq<char>
    decreases source.len(),
{
    if source.len() > 0 && is_white(source.last()) {
        trimmed(source.drop_last())
    } else {
        source
    }
}

/// What closes a text that ends in `)` or `"`: a space, and the character
/// that starts a line comment.
pub open spec fn closing_mark() -> Seq<char> {
    " \\"@
}

/// The text that is handed to the tokenizer for `source`: `source` without
/// the white space at its end, and, where that ends in `)` or `"`, closed by
/// the closing mark. The mark stands behind the last number, command, colon
/// or semicolon of the text, so it changes none of them: it becomes a line
/// comment of its own, or a part of the comment or string that ends the text.
pub open spec fn handed(source: Seq<char>) -> Seq<char> {
    let text = trimmed(source);
    if tokenizer_accepts(text) {
        text
    } else {
        text + closing_mark()
    }
}

/// The tokens of a text that the tokenizer accepts, in order.
pub uninterp spec fn tokens_of(source: Seq<char>) -> Seq<SpecToken>;

/// Runs `rust_forth_tokenizer::ForthTokenizer` over `source` and collects the
/// tokens it yields, each copied into a `Token` of the same kind with the
/// same fields. The tokenizer looks at nothing but the text, so its result is
/// named as a function of the text; on a text that does not end in a
/// delimiter none of its splitting steps can fail.
#[verifier::external_body]
fn tokenize(source: &str) -> (tokens: Vec<Token>)
    requires
        tokenizer_accepts(source@),
    ensures
        tokens.deep_view() == tokens_of(source@),
{
    ForthTokenizer::new(source).into_iter().map(|token| match token {
        ForthToken::Number(n) => Token::Number(n),
        ForthToken::Command(name) => Token::Command(name.to_string()),
        ForthToken::StringCommand(kind, text) => Token::StringLiteral(kind.to_string(), text.to_string()),
        ForthToken::Colon => Token::Colon,
        ForthToken::SemiColon => Token::SemiColon,
        ForthToken::DropLineComment(text) => Token::LineComment(text.to_string()),
        ForthToken::ParenthesizedRemark(text) => Token::BlockComment(text.to_string()),
    }).collect()
}

/// Whether the character in front of position `end` is white space.
fn white_before(s: &str, end: usize) -> (white: bool)
    requires
        0 < end <= s@.len(),
    ensures
        white == is_white(s@[end - 1]),
{
    let c = s.get_char(end - 1);
    c == ' ' || c == '\t' || c == '\n' || c == '\x0C' || c == '\r'
}

/// Splits a source text into its tokens. Every text is taken: what the
/// tokenizer gets is `handed(s@)`.
pub fn tokenize_string(s: &str) -> (tokens: Vec<Token>)
    ensures
        tokens.deep_view() == tokens_of(handed(s@)),
{
    let mut end = s.unicode_len();
    assert(s@.take(end as int) == s@);
    while end > 0 && white_before(s, end)
        invariant
            end <= s@.len(),
            trimmed(s@) == trimmed(s@.take(end as int)),
        decreases end,
    {
        assert(s@.take(end as int).last() == s@[end - 1]);
        assert(s@.take(end as int).drop_last() == s@.take(end as int - 1));
        end -= 1;
    }
    proof {
        if end > 0 {
            assert(s@.take(end as int).last() == s@[end - 1]);
        }
        assert(trimmed(s@) == s@.take(end as int));
    }
    let text = s.substring_char(0, end);
    assert(text@ == trimmed(s@));
    if end == 0 {
        return tokenize(text);
    }
    let last = s.get_char(end - 1);
    assert(text@.last() == last);
    if last == ')' || last == '"' {
        let mut closed = String::from_str(text);
        closed.append(" \\");
        proof {
            reveal_strlit(" \\");
            assert(closed@.last() == '\\');
        }
        tokenize(closed.as_str())
    } else {
        tokenize(text)
    }
}

} // verus!
