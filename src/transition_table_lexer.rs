//! The tokenizer: characters in, tokens out.
use crate::character_reader::CharacterReader;
use crate::flow::Flow;
use crate::row_section_parser::{field_text, field_texts};
use crate::text::{is_white_space, is_whitespace_char};
use crate::token::{keyword_text, lemma_views_push, token_of, views, Token, TokenView};
use vstd::prelude::*;

verus! {

/// Where the tokenizer stands between two characters.
#[derive(Debug, PartialEq, Eq, Structural, Clone, Copy)]
pub enum LexState {
    /// Between tokens.
    Empty,
    /// Inside an identifier.
    Collecting,
    /// Inside a line comment.
    Comment,
}

/// Punctuation that is a token of its own between tokens.
pub open spec fn is_symbol(c: char) -> bool {
    c == '<' || c == '>' || c == ',' || c == '{' || c == '}'
}

/// Punctuation that also ends an identifier.
pub open spec fn is_separator(c: char) -> bool {
    c == '<' || c == '>' || c == ','
}

/// The tokens produced from position `i` of `text` on, given the state, the
/// identifier collected so far and the tokens produced so far.
pub open spec fn lex_from(
    text: Seq<char>,
    i: nat,
    state: LexState,
    buffer: Seq<char>,
    tokens: Seq<TokenView>,
) -> Seq<TokenView>
    decreases text.len() - i,
{
    if i >= text.len() {
        tokens
    } else {
        let c = text[i as int];
        match state {
            LexState::Empty => {
                if is_white_space(c) {
                    lex_from(text, i + 1, LexState::Empty, buffer, tokens)
                } else if c == '/' {
                    if i + 1 < text.len() && text[i + 1int] == '/' {
                        lex_from(text, i + 2, LexState::Comment, buffer, tokens)
                    } else {
                        lex_from(text, i + 1, LexState::Empty, buffer, tokens.push(token_of(seq![c])))
                    }
                } else if is_symbol(c) {
                    lex_from(text, i + 1, LexState::Empty, buffer, tokens.push(token_of(seq![c])))
                } else if c == ';' {
                    tokens.push(TokenView::InstructionEnd)
                } else {
                    lex_from(text, i + 1, LexState::Collecting, buffer.push(c), tokens)
                }
            },
            LexState::Collecting => {
                if is_white_space(c) {
                    lex_from(text, i + 1, LexState::Empty, seq![], tokens.push(token_of(buffer)))
                } else if is_separator(c) {
                    lex_from(
                        text,
                        i + 1,
                        LexState::Empty,
                        seq![],
                        tokens.push(token_of(buffer)).push(token_of(seq![c])),
                    )
                } else {
                    lex_from(text, i + 1, LexState::Collecting, buffer.push(c), tokens)
                }
            },
            LexState::Comment => {
                if c == '\n' {
                    lex_from(text, i + 1, LexState::Empty, buffer, tokens)
                } else {
                    lex_from(text, i + 1, LexState::Comment, buffer, tokens)
                }
            },
        }
    }
}

/// The tokens of a text: whitespace and line comments dropped, the run
/// ending at the first top-level `;` or at the end of the text.
pub open spec fn lex(text: Seq<char>) -> Seq<TokenView> {
    lex_from(text, 0, LexState::Empty, seq![], seq![])
}

/// The text of a single character.
fn char_text(c: char) -> (r: String)
    ensures
        r@ == seq![c],
{
    let mut r = String::new();
    r.push(c);
    r
}

/// Tokenizes what `characterReader` has not consumed yet.
pub fn lexTransitionTable(characterReader: CharacterReader) -> (r: Vec<Token>)
    requires
        characterReader.wf(),
    ensures
        views(r@) == lex_from(
            characterReader.text(),
            characterReader.position(),
            LexState::Empty,
            seq![],
            seq![],
        ),
{
    let lexer = Lexer::new(characterReader);
    lexer.lex()
}

/// The tokenizer's state machine over a character reader.
pub struct Lexer<'a> {
    reader: CharacterReader<'a>,
    state: LexState,
    current: String,
    tokens: Vec<Token>,
}

impl<'a> Lexer<'a> {
    pub closed spec fn wf(&self) -> bool {
        self.reader.wf()
    }

    pub closed spec fn text(&self) -> Seq<char> {
        self.reader.text()
    }

    pub closed spec fn position(&self) -> nat {
        self.reader.position()
    }

    pub closed spec fn state(&self) -> LexState {
        self.state
    }

    pub closed spec fn produced(&self) -> Seq<TokenView> {
        views(self.tokens@)
    }

    /// The identifier collected so far.
    pub closed spec fn buffer(&self) -> Seq<char> {
        self.current@
    }

    /// `next` differs from this lexer only in its state, buffer and tokens.
    pub open spec fn same_place(&self, next: &Self) -> bool {
        next.text() == self.text() && next.position() == self.position()
    }

    /// The tokens that the run will yield from here on.
    pub closed spec fn outcome(&self) -> Seq<TokenView> {
        lex_from(self.reader.text(), self.reader.position(), self.state, self.current@, views(self.tokens@))
    }

    /// The tokens that the run yields from the character just consumed on.
    pub closed spec fn outcome_before(&self) -> Seq<TokenView> {
        lex_from(
            self.reader.text(),
            (self.reader.position() - 1) as nat,
            self.state,
            self.current@,
            views(self.tokens@),
        )
    }

    /// The handler of the character just consumed has kept the run on course.
    pub open spec fn handled(&self, next: &Self, flow: Flow) -> bool {
        &&& next.wf()
        &&& next.text() == self.text()
        &&& self.position() <= next.position() <= next.text().len()
        &&& flow == Flow::Continue ==> next.outcome() == self.outcome_before()
        &&& flow == Flow::Break ==> next.produced() == self.outcome_before()
    }

    /// The character just consumed is `c`.
    pub open spec fn consumed(&self, c: char) -> bool {
        &&& self.wf()
        &&& 1 <= self.position() <= self.text().len()
        &&& self.text()[self.position() - 1] == c
    }

    pub fn new(characterReader: CharacterReader<'a>) -> (r: Self)
        requires
            characterReader.wf(),
        ensures
            r.wf(),
            r.position() <= r.text().len(),
            r.text() == characterReader.text(),
            r.position() == characterReader.position(),
            r.outcome() == lex_from(
                characterReader.text(),
                characterReader.position(),
                LexState::Empty,
                seq![],
                seq![],
            ),
    {
        proof {
            characterReader.lemma_position_in_text();
        }
        let r = Lexer {
            reader: characterReader,
            state: LexState::Empty,
            current: String::new(),
            tokens: Vec::new(),
        };
        assert(views(r.tokens@) =~= seq![]);
        r
    }

    pub fn lex(self) -> (r: Vec<Token>)
        requires
            self.wf(),
            self.position() <= self.text().len(),
        ensures
            views(r@) == self.outcome(),
    {
        let mut lexer = self;
        let ghost goal = lexer.outcome();
        loop
            invariant_except_break
                lexer.wf(),
                lexer.position() <= lexer.text().len(),
                lexer.outcome() == goal,
            ensures
                views(lexer.tokens@) == goal,
            decreases lexer.text().len() - lexer.position(),
        {
            match lexer.reader.next() {
                Some(c) => {
                    assert(lexer.outcome_before() == goal);
                    match lexer.lexCharacter(c) {
                        Flow::Continue => {},
                        Flow::Break => break,
                    }
                },
                None => {
                    break;
                },
            }
        }
        lexer.tokens
    }

    pub fn lexCharacter(&mut self, c: char) -> (r: Flow)
        requires
            old(self).consumed(c),
        ensures
            old(self).handled(&*final(self), r),
    {
        match self.state {
            LexState::Empty => self.lexCharacterInEmptyState(c),
            LexState::Collecting => self.lexCharacterInCollectingState(c),
            LexState::Comment => self.lexCharacterInCommentState(c),
        }
    }

    pub fn lexCharacterInEmptyState(&mut self, c: char) -> (r: Flow)
        requires
            old(self).consumed(c),
            old(self).state() == LexState::Empty,
        ensures
            old(self).handled(&*final(self), r),
            is_white_space(c) ==> old(self).same_place(&*final(self)) && final(self).state()
                == LexState::Empty && final(self).buffer() == old(self).buffer() && final(self).produced() == old(self).produced(),
    {
        if is_whitespace_char(c) {
            Flow::Continue
        } else if c == '/' {
            self.lexForwardSlashInEmptyState()
        } else if c == '<' || c == '>' || c == ',' || c == '{' || c == '}' {
            self.lexSymbolInEmptyState(c)
        } else if c == ';' {
            self.lexSemicolonInEmptyState()
        } else {
            self.lexIdentifierInEmptyState(c)
        }
    }

    pub fn lexForwardSlashInEmptyState(&mut self) -> (r: Flow)
        requires
            old(self).consumed('/'),
            old(self).state() == LexState::Empty,
        ensures
            old(self).handled(&*final(self), r),
            r == Flow::Continue,
            final(self).text() == old(self).text(),
            final(self).buffer() == old(self).buffer(),
            old(self).position() < old(self).text().len() && old(self).text()[old(self).position() as int] == '/' ==> {
                &&& final(self).position() == old(self).position() + 1
                &&& final(self).state() == LexState::Comment
                &&& final(self).produced() == old(self).produced()
            },
            !(old(self).position() < old(self).text().len() && old(self).text()[old(self).position() as int] == '/') ==> {
                &&& final(self).position() == old(self).position()
                &&& final(self).state() == LexState::Empty
                &&& final(self).produced() == old(self).produced().push(
                    TokenView::Identifier(seq!['/']),
                )
            },
    {
        match self.reader.peek() {
            Some('/') => {
                self.reader.next();
                self.state = LexState::Comment;
            },
            _ => {
                let t = Token::new(char_text('/').as_str());
                proof {
                    lemma_views_push(self.tokens@, t);
                    lemma_symbol_tokens();
                }
                self.tokens.push(t);
            },
        }
        Flow::Continue
    }

    pub fn lexSymbolInEmptyState(&mut self, symbol: char) -> (r: Flow)
        requires
            old(self).consumed(symbol),
            old(self).state() == LexState::Empty,
            is_symbol(symbol),
        ensures
            old(self).handled(&*final(self), r),
            r == Flow::Continue,
            old(self).same_place(&*final(self)),
            final(self).state() == LexState::Empty,
            final(self).buffer() == old(self).buffer(),
            final(self).produced() == old(self).produced().push(token_of(seq![symbol])),
    {
        let t = Token::new(char_text(symbol).as_str());
        proof {
            lemma_views_push(self.tokens@, t);
        }
        self.tokens.push(t);
        Flow::Continue
    }

    pub fn lexSemicolonInEmptyState(&mut self) -> (r: Flow)
        requires
            old(self).consumed(';'),
            old(self).state() == LexState::Empty,
        ensures
            old(self).handled(&*final(self), r),
            r == Flow::Break,
            old(self).same_place(&*final(self)),
            final(self).state() == LexState::Empty,
            final(self).buffer() == old(self).buffer(),
            final(self).produced() == old(self).produced().push(TokenView::InstructionEnd),
    {
        let t = Token::InstructionEnd;
        proof {
            lemma_views_push(self.tokens@, t);
        }
        self.tokens.push(t);
        Flow::Break
    }

    pub fn lexIdentifierInEmptyState(&mut self, c: char) -> (r: Flow)
        requires
            old(self).consumed(c),
            old(self).state() == LexState::Empty,
            !is_white_space(c),
            c != '/',
            !is_symbol(c),
            c != ';',
        ensures
            old(self).handled(&*final(self), r),
            r == Flow::Continue,
            old(self).same_place(&*final(self)),
            final(self).state() == LexState::Collecting,
            final(self).buffer() == old(self).buffer().push(c),
            final(self).produced() == old(self).produced(),
    {
        self.current.push(c);
        self.state = LexState::Collecting;
        Flow::Continue
    }

    pub fn lexCharacterInCollectingState(&mut self, c: char) -> (r: Flow)
        requires
            old(self).consumed(c),
            old(self).state() == LexState::Collecting,
        ensures
            old(self).handled(&*final(self), r),
            r == Flow::Continue,
            old(self).same_place(&*final(self)),
            is_white_space(c) ==> {
                &&& final(self).produced() == old(self).produced().push(token_of(old(self).buffer()))
                &&& final(self).buffer() == Seq::<char>::empty()
                &&& final(self).state() == LexState::Empty
            },
            !is_white_space(c) && is_separator(c) ==> {
                &&& final(self).produced() == old(self).produced().push(
                    token_of(old(self).buffer()),
                ).push(token_of(seq![c]))
                &&& final(self).buffer() == Seq::<char>::empty()
                &&& final(self).state() == LexState::Empty
            },
            !is_white_space(c) && !is_separator(c) ==> {
                &&& final(self).produced() == old(self).produced()
                &&& final(self).buffer() == old(self).buffer().push(c)
                &&& final(self).state() == LexState::Collecting
            },
    {
        if is_whitespace_char(c) {
            let t = Token::new(self.current.as_str());
            proof {
                lemma_views_push(self.tokens@, t);
            }
            self.tokens.push(t);
            self.current = String::new();
            self.state = LexState::Empty;
        } else if c == '<' || c == '>' || c == ',' {
            let t = Token::new(self.current.as_str());
            proof {
                lemma_views_push(self.tokens@, t);
            }
            self.tokens.push(t);
            let s = Token::new(char_text(c).as_str());
            proof {
                lemma_views_push(self.tokens@, s);
            }
            self.tokens.push(s);
            self.current = String::new();
            self.state = LexState::Empty;
        } else {
            self.current.push(c);
        }
        Flow::Continue
    }

    pub fn lexCharacterInCommentState(&mut self, c: char) -> (r: Flow)
        requires
            old(self).consumed(c),
            old(self).state() == LexState::Comment,
        ensures
            old(self).handled(&*final(self), r),
            r == Flow::Continue,
            old(self).same_place(&*final(self)),
            final(self).produced() == old(self).produced(),
            final(self).buffer() == old(self).buffer(),
            final(self).state() == if c == '\n' {
                LexState::Empty
            } else {
                LexState::Comment
            },
    {
        if c == '\n' {
            self.state = LexState::Empty;
        }
        Flow::Continue
    }
}


/// Whether the tokenizer reads `s` back as an identifier when a `<`, `>` or
/// `,` follows it.
pub open spec fn lexable_identifier(s: Seq<char>) -> bool {
    &&& s.len() > 0
    &&& forall|k: int| 0 <= k < s.len() ==> !is_white_space(#[trigger] s[k]) && !is_separator(s[k])
    &&& (s == seq!['/'] || (s[0] != '/' && !is_symbol(s[0]) && s[0] != ';'))
    &&& token_of(s) == TokenView::Identifier(s)
}

/// The tokens that separate the parts of a generic expression.
pub open spec fn is_separator_token(t: TokenView) -> bool {
    t is TemplateStart || t is TemplateEnd || t is Comma
}

/// Tokens as the field parser writes them back: separators, and readable
/// identifiers each followed by a separator.
pub open spec fn written_form(tokens: Seq<TokenView>) -> bool {
    forall|j: int|
        0 <= j < tokens.len() ==> is_separator_token(#[trigger] tokens[j]) || (tokens[j] is Identifier
            && lexable_identifier(tokens[j]->Identifier_0) && j + 1 < tokens.len()
            && is_separator_token(tokens[j + 1]))
}

/// Tokenizing from the end of a first text on is tokenizing the second text.
proof fn lemma_lex_shift(
    p: Seq<char>,
    q: Seq<char>,
    i: nat,
    state: LexState,
    buffer: Seq<char>,
    tokens: Seq<TokenView>,
)
    ensures
        lex_from(p + q, p.len() + i, state, buffer, tokens) == lex_from(q, i, state, buffer, tokens),
    decreases q.len() - i,
{
    let t = p + q;
    if i < q.len() {
        let c = q[i as int];
        assert(t[p.len() + i as int] == c);
        if i + 1 < q.len() {
            assert(t[p.len() + i as int + 1] == q[i as int + 1]);
        }
        match state {
            LexState::Empty => {
                if is_white_space(c) {
                    lemma_lex_shift(p, q, i + 1, LexState::Empty, buffer, tokens);
                } else if c == '/' {
                    if i + 1 < q.len() && q[i as int + 1] == '/' {
                        lemma_lex_shift(p, q, i + 2, LexState::Comment, buffer, tokens);
                    } else {
                        lemma_lex_shift(
                            p,
                            q,
                            i + 1,
                            LexState::Empty,
                            buffer,
                            tokens.push(token_of(seq![c])),
                        );
                    }
                } else if is_symbol(c) {
                    lemma_lex_shift(p, q, i + 1, LexState::Empty, buffer, tokens.push(token_of(seq![c])));
                } else if c == ';' {
                } else {
                    lemma_lex_shift(p, q, i + 1, LexState::Collecting, buffer.push(c), tokens);
                }
            },
            LexState::Collecting => {
                if is_white_space(c) {
                    lemma_lex_shift(p, q, i + 1, LexState::Empty, seq![], tokens.push(token_of(buffer)));
                } else if is_separator(c) {
                    lemma_lex_shift(
                        p,
                        q,
                        i + 1,
                        LexState::Empty,
                        seq![],
                        tokens.push(token_of(buffer)).push(token_of(seq![c])),
                    );
                } else {
                    lemma_lex_shift(p, q, i + 1, LexState::Collecting, buffer.push(c), tokens);
                }
            },
            LexState::Comment => {
                if c == '\n' {
                    lemma_lex_shift(p, q, i + 1, LexState::Empty, buffer, tokens);
                } else {
                    lemma_lex_shift(p, q, i + 1, LexState::Comment, buffer, tokens);
                }
            },
        }
    }
}

/// Inside an identifier, characters that neither are whitespace nor end it are collected.
proof fn lemma_lex_collect(
    text: Seq<char>,
    i: nat,
    m: nat,
    buffer: Seq<char>,
    tokens: Seq<TokenView>,
)
    requires
        i + m <= text.len(),
        forall|k: int| i <= k < i + m ==> !is_white_space(#[trigger] text[k]) && !is_separator(text[k]),
    ensures
        lex_from(text, i, LexState::Collecting, buffer, tokens) == lex_from(
            text,
            i + m,
            LexState::Collecting,
            buffer + text.subrange(i as int, (i + m) as int),
            tokens,
        ),
    decreases m,
{
    if m == 0 {
        assert(buffer + text.subrange(i as int, i as int) =~= buffer);
    } else {
        let c = text[i as int];
        lemma_lex_collect(text, i + 1, (m - 1) as nat, buffer.push(c), tokens);
        assert(buffer.push(c) + text.subrange(i + 1int, (i + m) as int) =~= buffer + text.subrange(
            i as int,
            (i + m) as int,
        ));
    }
}

proof fn lemma_symbol_tokens()
    ensures
        token_of(seq!['<']) == TokenView::TemplateStart,
        token_of(seq!['>']) == TokenView::TemplateEnd,
        token_of(seq![',']) == TokenView::Comma,
        token_of(seq!['/']) == TokenView::Identifier(seq!['/']),
        !is_white_space('<') && !is_white_space('>') && !is_white_space(',') && !is_white_space('/'),
        is_white_space(' '),
{
    assert(seq!['<'][0] == '<');
    assert(seq!['>'][0] == '>');
    assert(seq![','][0] == ',');
    assert(seq!['/'][0] == '/');
    assert(seq!['<'] != seq![',']);
    assert(seq!['<'] != seq![':']);
    assert(seq!['<'] != seq![';']);
    assert(seq!['>'] != seq![',']);
    assert(seq!['>'] != seq![':']);
    assert(seq!['>'] != seq![';']);
    assert(seq!['>'] != seq!['<']);
    assert(seq!['/'] != seq![',']);
    assert(seq!['/'] != seq![':']);
    assert(seq!['/'] != seq![';']);
    assert(seq!['/'] != seq!['<']);
    assert(seq!['/'] != seq!['>']);
    assert(seq!['/'] != seq!['{']);
    assert(seq!['/'] != seq!['}']);
    assert(seq!['/'].len() != keyword_text().len());
}


/// Tokenizing tokens written back in their written form gives them back.
pub proof fn lemma_lex_written(tokens: Seq<TokenView>, acc: Seq<TokenView>)
    requires
        written_form(tokens),
    ensures
        lex_from(field_texts(tokens), 0, LexState::Empty, seq![], acc) == acc + tokens,
    decreases tokens.len(),
{
    lemma_symbol_tokens();
    reveal_strlit(", ");
    let text = field_texts(tokens);
    if tokens.len() == 0 {
        assert(acc + tokens =~= acc);
    } else {
        let t = tokens[0];
        let rest = tokens.drop_first();
        assert(written_form(rest)) by {
            assert forall|j: int| 0 <= j < rest.len() implies is_separator_token(#[trigger] rest[j])
                || (rest[j] is Identifier && lexable_identifier(rest[j]->Identifier_0) && j + 1
                < rest.len() && is_separator_token(rest[j + 1])) by {
                assert(rest[j] == tokens[j + 1]);
                if j + 2 < tokens.len() {
                    assert(rest[j + 1] == tokens[j + 2]);
                }
            }
        }
        assert(text == field_text(t) + field_texts(rest));
        match t {
            TokenView::TemplateStart | TokenView::TemplateEnd => {
                let p = field_text(t);
                assert(text[0] == p[0]);
                assert(lex_from(text, 0, LexState::Empty, seq![], acc) == lex_from(text, 1, LexState::Empty, seq![], acc.push(t)));
                lemma_lex_shift(p, field_texts(rest), 0, LexState::Empty, seq![], acc.push(t));
                assert(lex_from(text, 1, LexState::Empty, seq![], acc.push(t)) == lex_from(field_texts(rest), 0, LexState::Empty, seq![], acc.push(t)));
                lemma_lex_written(rest, acc.push(t));
                assert(acc.push(t) + rest =~= acc + tokens);
            },
            TokenView::Comma => {
                let p = field_text(t);
                assert(text[0] == ',' && text[1] == ' ');
                assert(lex_from(text, 0, LexState::Empty, seq![], acc) == lex_from(text, 1, LexState::Empty, seq![], acc.push(t)));
                assert(lex_from(text, 1, LexState::Empty, seq![], acc.push(t)) == lex_from(text, 2, LexState::Empty, seq![], acc.push(t)));
                lemma_lex_shift(p, field_texts(rest), 0, LexState::Empty, seq![], acc.push(t));
                assert(lex_from(text, 2, LexState::Empty, seq![], acc.push(t)) == lex_from(field_texts(rest), 0, LexState::Empty, seq![], acc.push(t)));
                lemma_lex_written(rest, acc.push(t));
                assert(acc.push(t) + rest =~= acc + tokens);
            },
            TokenView::Identifier(s) => {
                assert(lexable_identifier(s));
                let u = rest[0];
                assert(u == tokens[1]);
                let rest2 = rest.drop_first();
                let sep = field_text(u);
                assert(field_texts(rest) == sep + field_texts(rest2));
                assert(text =~= s + (sep + field_texts(rest2)));
                assert(text[s.len() as int] == sep[0]);
                if s == seq!['/'] {
                    assert(text[0] == '/');
                    assert(text[1] == sep[0]);
                    assert(lex_from(text, 0, LexState::Empty, seq![], acc) == lex_from(text, 1, LexState::Empty, seq![], acc.push(t)));
                    lemma_lex_shift(s, field_texts(rest), 0, LexState::Empty, seq![], acc.push(t));
                    lemma_lex_written(rest, acc.push(t));
                    assert(acc.push(t) + rest =~= acc + tokens);
                } else {
                    let c0 = s[0];
                    assert(text[0] == c0);
                    assert(!is_white_space(c0));
                    assert(lex_from(text, 0, LexState::Empty, seq![], acc) == lex_from(text, 1, LexState::Collecting, seq![c0], acc));
                    lemma_lex_collect(text, 1, (s.len() - 1) as nat, seq![c0], acc);
                    assert(seq![c0] + text.subrange(1, s.len() as int) =~= s);
                    assert(lex_from(text, 0, LexState::Empty, seq![], acc) == lex_from(text, s.len(), LexState::Collecting, s, acc));
                    let acc2 = acc.push(t).push(u);
                    assert(token_of(seq![sep[0]]) == u) by {
                        assert(seq![sep[0]] =~= sep || u is Comma);
                    }
                    assert(lex_from(text, s.len(), LexState::Collecting, s, acc) == lex_from(text, s.len() + 1, LexState::Empty, seq![], acc2));
                    if u is Comma {
                        assert(text[s.len() + 1int] == ' ');
                        assert(lex_from(text, s.len() + 1, LexState::Empty, seq![], acc2) == lex_from(text, s.len() + 2, LexState::Empty, seq![], acc2));
                        let p = s + sep;
                        assert(text =~= p + field_texts(rest2));
                        lemma_lex_shift(p, field_texts(rest2), 0, LexState::Empty, seq![], acc2);
                    } else {
                        let p = s + sep;
                        assert(text =~= p + field_texts(rest2));
                        lemma_lex_shift(p, field_texts(rest2), 0, LexState::Empty, seq![], acc2);
                    }
                    assert(written_form(rest2)) by {
                        assert forall|j: int| 0 <= j < rest2.len() implies is_separator_token(
                            #[trigger] rest2[j],
                        ) || (rest2[j] is Identifier && lexable_identifier(rest2[j]->Identifier_0)
                            && j + 1 < rest2.len() && is_separator_token(rest2[j + 1])) by {
                            assert(rest2[j] == tokens[j + 2]);
                            if j + 3 < tokens.len() {
                                assert(rest2[j + 1] == tokens[j + 3]);
                            }
                        }
                    }
                    lemma_lex_written(rest2, acc2);
                    assert(acc2 + rest2 =~= acc + tokens);
                }
            },
            _ => {},
        }
    }
}


/// Every identifier among the tokens is one the tokenizer reads back.
pub open spec fn identifiers_lexable(tokens: Seq<TokenView>) -> bool {
    forall|k: int|
        0 <= k < tokens.len() && #[trigger] tokens[k] is Identifier ==> lexable_identifier(
            tokens[k]->Identifier_0,
        )
}

/// What holds of the tokenizer's state between two characters.
spec fn lex_state_ok(state: LexState, buffer: Seq<char>, tokens: Seq<TokenView>) -> bool {
    &&& identifiers_lexable(tokens)
    &&& state != LexState::Collecting ==> buffer.len() == 0
    &&& state == LexState::Collecting ==> {
        &&& buffer.len() > 0
        &&& forall|k: int|
            0 <= k < buffer.len() ==> !is_white_space(#[trigger] buffer[k]) && !is_separator(
                buffer[k],
            )
        &&& buffer[0] != '/' && !is_symbol(buffer[0]) && buffer[0] != ';'
    }
}

proof fn lemma_push_lexable(tokens: Seq<TokenView>, t: TokenView)
    requires
        identifiers_lexable(tokens),
        t is Identifier ==> lexable_identifier(t->Identifier_0),
    ensures
        identifiers_lexable(tokens.push(t)),
{
    assert forall|k: int|
        0 <= k < tokens.push(t).len() && #[trigger] tokens.push(t)[k] is Identifier implies lexable_identifier(
        tokens.push(t)[k]->Identifier_0,
    ) by {
        if k < tokens.len() {
            assert(tokens.push(t)[k] == tokens[k]);
        }
    }
}

proof fn lemma_flush_lexable(buffer: Seq<char>)
    requires
        lex_state_ok(LexState::Collecting, buffer, seq![]),
    ensures
        token_of(buffer) is Identifier ==> lexable_identifier(token_of(buffer)->Identifier_0),
{
}

proof fn lemma_lex_from_identifiers(
    text: Seq<char>,
    i: nat,
    state: LexState,
    buffer: Seq<char>,
    tokens: Seq<TokenView>,
)
    requires
        lex_state_ok(state, buffer, tokens),
    ensures
        identifiers_lexable(lex_from(text, i, state, buffer, tokens)),
    decreases text.len() - i,
{
    lemma_symbol_tokens();
    if i < text.len() {
        let c = text[i as int];
        match state {
            LexState::Empty => {
                if is_white_space(c) {
                    lemma_lex_from_identifiers(text, i + 1, LexState::Empty, buffer, tokens);
                } else if c == '/' {
                    if i + 1 < text.len() && text[i + 1int] == '/' {
                        lemma_lex_from_identifiers(text, i + 2, LexState::Comment, buffer, tokens);
                    } else {
                        assert(seq![c] == seq!['/']);
                        lemma_push_lexable(tokens, token_of(seq![c]));
                        lemma_lex_from_identifiers(
                            text,
                            i + 1,
                            LexState::Empty,
                            buffer,
                            tokens.push(token_of(seq![c])),
                        );
                    }
                } else if is_symbol(c) {
                    assert(!(token_of(seq![c]) is Identifier)) by {
                        assert(seq![c][0] == c);
                    }
                    lemma_push_lexable(tokens, token_of(seq![c]));
                    lemma_lex_from_identifiers(
                        text,
                        i + 1,
                        LexState::Empty,
                        buffer,
                        tokens.push(token_of(seq![c])),
                    );
                } else if c == ';' {
                    lemma_push_lexable(tokens, TokenView::InstructionEnd);
                } else {
                    let b = buffer.push(c);
                    assert(b =~= seq![c]);
                    lemma_lex_from_identifiers(text, i + 1, LexState::Collecting, b, tokens);
                }
            },
            LexState::Collecting => {
                lemma_flush_lexable(buffer);
                lemma_push_lexable(tokens, token_of(buffer));
                if is_white_space(c) {
                    lemma_lex_from_identifiers(
                        text,
                        i + 1,
                        LexState::Empty,
                        seq![],
                        tokens.push(token_of(buffer)),
                    );
                } else if is_separator(c) {
                    assert(!(token_of(seq![c]) is Identifier)) by {
                        assert(seq![c][0] == c);
                    }
                    lemma_push_lexable(tokens.push(token_of(buffer)), token_of(seq![c]));
                    lemma_lex_from_identifiers(
                        text,
                        i + 1,
                        LexState::Empty,
                        seq![],
                        tokens.push(token_of(buffer)).push(token_of(seq![c])),
                    );
                } else {
                    let b = buffer.push(c);
                    assert(b[0] == buffer[0]);
                    assert forall|k: int|
                        0 <= k < b.len() implies !is_white_space(#[trigger] b[k]) && !is_separator(
                        b[k],
                    ) by {
                        if k < buffer.len() {
                            assert(b[k] == buffer[k]);
                        }
                    }
                    lemma_lex_from_identifiers(text, i + 1, LexState::Collecting, b, tokens);
                }
            },
            LexState::Comment => {
                if c == '\n' {
                    lemma_lex_from_identifiers(text, i + 1, LexState::Empty, buffer, tokens);
                } else {
                    lemma_lex_from_identifiers(text, i + 1, LexState::Comment, buffer, tokens);
                }
            },
        }
    }
}

/// The tokenizer makes only identifiers that it reads back the same way.
pub proof fn lemma_lex_identifiers_lexable(text: Seq<char>)
    ensures
        identifiers_lexable(lex(text)),
{
    lemma_lex_from_identifiers(text, 0, LexState::Empty, seq![], seq![]);
}

} // verus!
