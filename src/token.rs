//! The lexical units of a transition table.
use crate::text::{joined, same_text};
use vstd::prelude::*;
use vstd::string::*;

verus! {

/// One lexical unit.
#[derive(Debug, PartialEq, Eq)]
pub enum Token {
    BlockStart,
    BlockEnd,
    Colon,
    Comma,
    Identifier(String),
    InstructionEnd,
    Keyword(String),
    TemplateStart,
    TemplateEnd,
}

/// What a token is, with its text as characters.
pub ghost enum TokenView {
    BlockStart,
    BlockEnd,
    Colon,
    Comma,
    Identifier(Seq<char>),
    InstructionEnd,
    Keyword(Seq<char>),
    TemplateStart,
    TemplateEnd,
}

impl View for Token {
    type V = TokenView;

    open spec fn view(&self) -> TokenView {
        match self {
            Token::BlockStart => TokenView::BlockStart,
            Token::BlockEnd => TokenView::BlockEnd,
            Token::Colon => TokenView::Colon,
            Token::Comma => TokenView::Comma,
            Token::Identifier(s) => TokenView::Identifier(s@),
            Token::InstructionEnd => TokenView::InstructionEnd,
            Token::Keyword(s) => TokenView::Keyword(s@),
            Token::TemplateStart => TokenView::TemplateStart,
            Token::TemplateEnd => TokenView::TemplateEnd,
        }
    }
}

/// The views of a sequence of tokens.
pub open spec fn views(tokens: Seq<Token>) -> Seq<TokenView> {
    tokens.map_values(|t: Token| t@)
}

/// The one word that the tokenizer reports as a keyword.
pub open spec fn keyword_text() -> Seq<char> {
    seq!['s', 't', 'r', 'u', 'c', 't']
}

/// The token that a piece of text stands for.
pub open spec fn token_of(text: Seq<char>) -> TokenView {
    if text == seq![','] {
        TokenView::Comma
    } else if text == seq![':'] {
        TokenView::Colon
    } else if text == seq![';'] {
        TokenView::InstructionEnd
    } else if text == seq!['<'] {
        TokenView::TemplateStart
    } else if text == seq!['>'] {
        TokenView::TemplateEnd
    } else if text == keyword_text() {
        TokenView::Keyword(text)
    } else if text == seq!['{'] {
        TokenView::BlockStart
    } else if text == seq!['}'] {
        TokenView::BlockEnd
    } else {
        TokenView::Identifier(text)
    }
}

/// What `Debug` shows of a string: the string in double quotes, with escapes.
pub uninterp spec fn quoted(s: Seq<char>) -> Seq<char>;

/// Relies on `<str as Debug>::fmt`: the string in double quotes, with
/// escapes; the result depends on the characters alone.
#[verifier::external_body]
fn debug_quoted(s: &str) -> (r: String)
    ensures
        r@ == quoted(s@),
{
    format!("{:?}", s)
}

/// How a token is shown in a diagnostic.
pub open spec fn debug_text(t: TokenView) -> Seq<char> {
    match t {
        TokenView::BlockStart => "BlockStart"@,
        TokenView::BlockEnd => "BlockEnd"@,
        TokenView::Colon => "Colon"@,
        TokenView::Comma => "Comma"@,
        TokenView::Identifier(s) => "Identifier("@ + quoted(s) + ")"@,
        TokenView::InstructionEnd => "InstructionEnd"@,
        TokenView::Keyword(s) => "Keyword("@ + quoted(s) + ")"@,
        TokenView::TemplateStart => "TemplateStart"@,
        TokenView::TemplateEnd => "TemplateEnd"@,
    }
}

/// A diagnostic that names what was expected and shows the token found.
pub open spec fn expected_got(expected: Seq<char>, t: TokenView) -> Seq<char> {
    expected + ", got: "@ + debug_text(t) + "."@
}

impl Token {
    pub fn new(text: &str) -> (r: Token)
        ensures
            r@ == token_of(text@),
    {
        if text.unicode_len() == 1 {
            let c = text.get_char(0);
            assert(text@ == seq![c]);
            if c == ',' {
                return Token::Comma;
            } else if c == ':' {
                return Token::Colon;
            } else if c == ';' {
                return Token::InstructionEnd;
            } else if c == '<' {
                return Token::TemplateStart;
            } else if c == '>' {
                return Token::TemplateEnd;
            } else if c == '{' {
                return Token::BlockStart;
            } else if c == '}' {
                return Token::BlockEnd;
            }
        }
        proof {
            reveal_strlit("struct");
            assert("struct"@ =~= keyword_text());
        }
        if same_text(text, "struct") {
            Token::Keyword(text.to_owned())
        } else {
            Token::Identifier(text.to_owned())
        }
    }

    /// The token as a diagnostic shows it.
    pub fn debug_text(&self) -> (r: String)
        ensures
            r@ == debug_text(self@),
    {
        match self {
            Token::BlockStart => "BlockStart".to_owned(),
            Token::BlockEnd => "BlockEnd".to_owned(),
            Token::Colon => "Colon".to_owned(),
            Token::Comma => "Comma".to_owned(),
            Token::Identifier(s) => {
                let q = debug_quoted(s.as_str());
                let r = joined("Identifier(", q.as_str());
                r.concat(")")
            },
            Token::InstructionEnd => "InstructionEnd".to_owned(),
            Token::Keyword(s) => {
                let q = debug_quoted(s.as_str());
                let r = joined("Keyword(", q.as_str());
                r.concat(")")
            },
            Token::TemplateStart => "TemplateStart".to_owned(),
            Token::TemplateEnd => "TemplateEnd".to_owned(),
        }
    }
}

/// The diagnostic `"{expected}, got: {token}."`.
pub fn expected_got_message(expected: &str, t: &Token) -> (r: String)
    ensures
        r@ == expected_got(expected@, t@),
{
    let r = joined(expected, ", got: ");
    let d = t.debug_text();
    let r = r.concat(d.as_str());
    r.concat(".")
}


pub proof fn lemma_views_push(tokens: Seq<Token>, t: Token)
    ensures
        views(tokens.push(t)) == views(tokens).push(t@),
{
    assert(views(tokens.push(t)) =~= views(tokens).push(t@));
}

} // verus!
