//! The parser of one action or guard field: a bare identifier or a generic
//! expression `Name<arg, arg, ...>` nested to any depth, rebuilt as text.
use crate::flow::Flow;
use crate::text::joined;
use crate::token::{expected_got, expected_got_message, views, Token, TokenView};
use crate::transition_table_lexer::{
    identifiers_lexable, is_separator_token, lemma_lex_identifiers_lexable, lemma_lex_written, lex,
    lexable_identifier, written_form,
};
use vstd::prelude::*;
use vstd::string::*;

verus! {

/// Where the field parser stands between two tokens.
#[derive(Debug, PartialEq, Eq, Structural, Clone, Copy)]
pub enum FieldState {
    ExpectIdentifier,
    AfterIdentifier,
    AfterTemplateStart,
    AfterIdentifierInTemplate,
    AfterInnerTemplateEnd,
    ExpectIdentifierInTemplate,
}

/// What the field parser does with one token.
pub ghost enum FieldMove {
    /// Consume the token and go on in the given state, at the given depth, with
    /// the given text.
    Advance(FieldState, nat, Seq<char>),
    /// End the field with the given text; the flag says whether the token
    /// was consumed.
    Finish(Seq<char>, bool),
    /// Stop with the given diagnostic.
    Fail(Seq<char>),
}

/// The diagnostic for a comma right after an inner generic closes.
pub open spec fn unsupported_comma() -> Seq<char> {
    "A comma after a nested template end is not supported."@
}

/// The diagnostic for tokens that run out inside a field.
pub open spec fn premature(name: Seq<char>) -> Seq<char> {
    "While parsing "@ + name + ", tokens ended prematurely."@
}

/// Closing a generic argument list: the field ends when the depth returns to 0.
pub open spec fn close_template(depth: nat, out: Seq<char>) -> FieldMove {
    if depth <= 1 {
        FieldMove::Finish(out.push('>'), true)
    } else {
        FieldMove::Advance(FieldState::AfterInnerTemplateEnd, (depth - 1) as nat, out.push('>'))
    }
}

/// The transition function of the field parser.
pub open spec fn field_step(
    name: Seq<char>,
    state: FieldState,
    depth: nat,
    out: Seq<char>,
    t: TokenView,
) -> FieldMove {
    match state {
        FieldState::ExpectIdentifier => match t {
            TokenView::Identifier(s) => FieldMove::Advance(FieldState::AfterIdentifier, depth, out + s),
            _ => FieldMove::Fail(expected_got("Expected "@ + name, t)),
        },
        FieldState::AfterIdentifier => match t {
            TokenView::TemplateStart => FieldMove::Advance(
                FieldState::AfterTemplateStart,
                depth + 1,
                out.push('<'),
            ),
            _ => FieldMove::Finish(out, false),
        },
        FieldState::AfterTemplateStart => match t {
            TokenView::Identifier(s) => FieldMove::Advance(
                FieldState::AfterIdentifierInTemplate,
                depth,
                out + s,
            ),
            TokenView::TemplateEnd => close_template(depth, out),
            _ => FieldMove::Fail(expected_got("Expected an identifier or a template end"@, t)),
        },
        FieldState::AfterIdentifierInTemplate => match t {
            TokenView::Comma => FieldMove::Advance(
                FieldState::ExpectIdentifierInTemplate,
                depth,
                out + ", "@,
            ),
            TokenView::TemplateStart => FieldMove::Advance(
                FieldState::AfterTemplateStart,
                depth + 1,
                out.push('<'),
            ),
            TokenView::TemplateEnd => close_template(depth, out),
            _ => FieldMove::Fail(
                expected_got("Expected a comma, template start or template end"@, t),
            ),
        },
        FieldState::AfterInnerTemplateEnd => match t {
            TokenView::TemplateEnd => close_template(depth, out),
            TokenView::Comma => FieldMove::Fail(unsupported_comma()),
            _ => FieldMove::Fail(expected_got("Expected a comma or a template end"@, t)),
        },
        FieldState::ExpectIdentifierInTemplate => match t {
            TokenView::Identifier(s) => FieldMove::Advance(
                FieldState::AfterIdentifierInTemplate,
                depth,
                out + s,
            ),
            _ => FieldMove::Fail(expected_got("Expected an identifier"@, t)),
        },
    }
}

/// The field parser run from token `pos` on: the rebuilt text and the
/// position after the field, or the first diagnostic.
pub open spec fn field_run(
    name: Seq<char>,
    tokens: Seq<TokenView>,
    pos: nat,
    state: FieldState,
    depth: nat,
    out: Seq<char>,
) -> Result<(Seq<char>, nat), Seq<char>>
    decreases tokens.len() - pos,
{
    if pos >= tokens.len() {
        Err(premature(name))
    } else {
        match field_step(name, state, depth, out, tokens[pos as int]) {
            FieldMove::Advance(s, d, o) => field_run(name, tokens, pos + 1, s, d, o),
            FieldMove::Finish(o, consumed) => Ok(
                (o, if consumed { pos + 1 } else { pos }),
            ),
            FieldMove::Fail(m) => Err(m),
        }
    }
}

/// The field named `name` that starts at token `pos`.
pub open spec fn parse_field(name: Seq<char>, tokens: Seq<TokenView>, pos: nat) -> Result<
    (Seq<char>, nat),
    Seq<char>,
> {
    field_run(name, tokens, pos, FieldState::ExpectIdentifier, 0, seq![])
}

/// Whether a depth goes with a state: 0 outside any argument list, at least 1 inside.
pub open spec fn depth_fits(state: FieldState, depth: nat) -> bool {
    match state {
        FieldState::ExpectIdentifier | FieldState::AfterIdentifier => depth == 0,
        _ => depth >= 1,
    }
}

/// The parser of one action or guard field.
pub struct RowSectionParser {
    name: &'static str,
    state: FieldState,
    templateDepth: usize,
    output: String,
}

impl RowSectionParser {
    /// What the field is called in diagnostics ("an action", "a guard").
    pub closed spec fn name(&self) -> Seq<char> {
        self.name@
    }

    pub closed spec fn state(&self) -> FieldState {
        self.state
    }

    pub closed spec fn depth(&self) -> nat {
        self.templateDepth as nat
    }

    /// The text rebuilt so far.
    pub closed spec fn output(&self) -> Seq<char> {
        self.output@
    }

    pub open spec fn wf(&self) -> bool {
        depth_fits(self.state(), self.depth())
    }

    /// `next` is this parser after one token `t`, which moved the cursor from
    /// `c0` to `c1` and returned `r`.
    pub open spec fn stepped(
        &self,
        next: &Self,
        t: TokenView,
        c0: usize,
        c1: usize,
        r: Result<Flow, String>,
    ) -> bool {
        &&& next.name() == self.name()
        &&& match field_step(self.name(), self.state(), self.depth(), self.output(), t) {
            FieldMove::Advance(s, d, o) => {
                &&& r == Ok::<Flow, String>(Flow::Continue)
                &&& next.state() == s
                &&& next.depth() == d
                &&& next.output() == o
                &&& c1 == c0 + 1
            },
            FieldMove::Finish(o, consumed) => {
                &&& r == Ok::<Flow, String>(Flow::Break)
                &&& next.output() == o
                &&& next.depth() == if consumed {
                    (self.depth() - 1) as nat
                } else {
                    self.depth()
                }
                &&& c1 == if consumed {
                    c0 + 1
                } else {
                    c0 as int
                }
            },
            FieldMove::Fail(m) => {
                &&& r is Err
                &&& r->Err_0@ == m
                &&& c1 == c0
                &&& next.state() == self.state()
                &&& next.depth() == self.depth()
                &&& next.output() == self.output()
            },
        }
    }

    pub fn new(name: &'static str) -> (r: Self)
        ensures
            r.name() == name@,
            r.state() == FieldState::ExpectIdentifier,
            r.depth() == 0,
            r.output() == Seq::<char>::empty(),
            r.wf(),
    {
        RowSectionParser {
            name,
            state: FieldState::ExpectIdentifier,
            templateDepth: 0,
            output: String::new(),
        }
    }

    /// Parses the field from token `*cursor` on. On success the cursor stands
    /// after the field.
    pub fn parse(self, tokens: &Vec<Token>, cursor: &mut usize) -> (r: Result<String, String>)
        requires
            self.wf(),
            self.depth() <= *old(cursor) <= tokens@.len(),
        ensures
            match field_run(
                self.name(),
                views(tokens@),
                *old(cursor) as nat,
                self.state(),
                self.depth(),
                self.output(),
            ) {
                Ok((o, q)) => r is Ok && r->Ok_0@ == o && *final(cursor) == q,
                Err(m) => r is Err && r->Err_0@ == m,
            },
    {
        let ghost start = (self.name(), self.state(), self.depth(), self.output(), *cursor as nat);
        let mut parser = self;
        let ghost toks = views(tokens@);
        let ghost goal = field_run(
            parser.name(),
            toks,
            *cursor as nat,
            parser.state(),
            parser.depth(),
            parser.output(),
        );
        while *cursor < tokens.len()
            invariant
                parser.wf(),
                parser.depth() <= *cursor <= tokens@.len(),
                toks == views(tokens@),
                goal == field_run(start.0, toks, start.4, start.1, start.2, start.3),
                start == (self.name(), self.state(), self.depth(), self.output(), *old(cursor) as nat),
                parser.name() == start.0,
                field_run(
                    parser.name(),
                    toks,
                    *cursor as nat,
                    parser.state(),
                    parser.depth(),
                    parser.output(),
                ) == goal,
            decreases tokens@.len() - *cursor,
        {
            let ghost c0 = *cursor;
            let ghost p0 = parser;
            let token = &tokens[*cursor];
            assert(toks[c0 as int] == token@);
            assert(field_run(p0.name(), toks, c0 as nat, p0.state(), p0.depth(), p0.output())
                == match field_step(p0.name(), p0.state(), p0.depth(), p0.output(), token@) {
                FieldMove::Advance(s, d, o) => field_run(p0.name(), toks, (c0 + 1) as nat, s, d, o),
                FieldMove::Finish(o, consumed) => Ok((o, if consumed { (c0 + 1) as nat } else { c0 as nat })),
                FieldMove::Fail(m) => Err(m),
            });
            match parser.parseToken(token, cursor) {
                Ok(Flow::Continue) => {},
                Ok(Flow::Break) => {
                    return Ok(parser.output);
                },
                Err(e) => {
                    return Err(e);
                },
            }
        }
        let m = joined("While parsing ", parser.name);
        Err(m.concat(", tokens ended prematurely."))
    }

    pub fn parseToken(&mut self, token: &Token, cursor: &mut usize) -> (r: Result<Flow, String>)
        requires
            old(self).wf(),
            old(self).depth() <= *old(cursor) < usize::MAX,
        ensures
            old(self).stepped(&*final(self), token@, *old(cursor), *final(cursor), r),
            r == Ok::<Flow, String>(Flow::Continue) ==> final(self).wf(),
    {
        match self.state {
            FieldState::ExpectIdentifier => self.parseInExpectIdentifier(token, cursor),
            FieldState::AfterIdentifier => self.parseInAfterIdentifier(token, cursor),
            FieldState::AfterTemplateStart => self.parseInAfterTemplateStart(token, cursor),
            FieldState::AfterIdentifierInTemplate => self.parseInAfterIdentifierInTemplate(
                token,
                cursor,
            ),
            FieldState::AfterInnerTemplateEnd => self.parseInAfterInnerTemplateEnd(token, cursor),
            FieldState::ExpectIdentifierInTemplate => self.parseInExpectIdentifierInTemplate(
                token,
                cursor,
            ),
        }
    }

    pub fn parseInExpectIdentifier(&mut self, token: &Token, cursor: &mut usize) -> (r: Result<
        Flow,
        String,
    >)
        requires
            old(self).wf(),
            old(self).state() == FieldState::ExpectIdentifier,
            *old(cursor) < usize::MAX,
        ensures
            old(self).stepped(&*final(self), token@, *old(cursor), *final(cursor), r),
            r == Ok::<Flow, String>(Flow::Continue) ==> final(self).wf(),
    {
        match token {
            Token::Identifier(name) => {
                self.output.append(name.as_str());
                self.state = FieldState::AfterIdentifier;
                *cursor = *cursor + 1;
                Ok(Flow::Continue)
            },
            _ => {
                let expected = joined("Expected ", self.name);
                Err(expected_got_message(expected.as_str(), token))
            },
        }
    }

    pub fn parseInAfterIdentifier(&mut self, token: &Token, cursor: &mut usize) -> (r: Result<
        Flow,
        String,
    >)
        requires
            old(self).wf(),
            old(self).state() == FieldState::AfterIdentifier,
            old(self).depth() <= *old(cursor) < usize::MAX,
        ensures
            old(self).stepped(&*final(self), token@, *old(cursor), *final(cursor), r),
            r == Ok::<Flow, String>(Flow::Continue) ==> final(self).wf(),
    {
        match token {
            Token::TemplateStart => {
                self.output.push('<');
                self.templateDepth = self.templateDepth + 1;
                self.state = FieldState::AfterTemplateStart;
                *cursor = *cursor + 1;
                Ok(Flow::Continue)
            },
            _ => Ok(Flow::Break),
        }
    }

    /// Closes one argument list; the field ends when the depth returns to 0.
    fn closeTemplate(&mut self, cursor: &mut usize) -> (r: Result<Flow, String>)
        requires
            old(self).depth() >= 1,
            *old(cursor) < usize::MAX,
        ensures
            final(self).name() == old(self).name(),
            match close_template(old(self).depth(), old(self).output()) {
                FieldMove::Advance(s, d, o) => {
                    &&& r == Ok::<Flow, String>(Flow::Continue)
                    &&& final(self).state() == s
                    &&& final(self).depth() == d
                    &&& final(self).output() == o
                },
                FieldMove::Finish(o, _) => {
                    &&& r == Ok::<Flow, String>(Flow::Break)
                    &&& final(self).output() == o
                    &&& final(self).depth() == old(self).depth() - 1
                },
                FieldMove::Fail(_) => false,
            },
            *final(cursor) == *old(cursor) + 1,
    {
        self.output.push('>');
        self.templateDepth = self.templateDepth - 1;
        *cursor = *cursor + 1;
        if self.templateDepth == 0 {
            Ok(Flow::Break)
        } else {
            self.state = FieldState::AfterInnerTemplateEnd;
            Ok(Flow::Continue)
        }
    }

    pub fn parseInAfterTemplateStart(&mut self, token: &Token, cursor: &mut usize) -> (r: Result<
        Flow,
        String,
    >)
        requires
            old(self).wf(),
            old(self).state() == FieldState::AfterTemplateStart,
            *old(cursor) < usize::MAX,
        ensures
            old(self).stepped(&*final(self), token@, *old(cursor), *final(cursor), r),
            r == Ok::<Flow, String>(Flow::Continue) ==> final(self).wf(),
    {
        match token {
            Token::Identifier(name) => {
                self.output.append(name.as_str());
                self.state = FieldState::AfterIdentifierInTemplate;
                *cursor = *cursor + 1;
                Ok(Flow::Continue)
            },
            Token::TemplateEnd => self.closeTemplate(cursor),
            _ => Err(expected_got_message("Expected an identifier or a template end", token)),
        }
    }

    pub fn parseInAfterIdentifierInTemplate(
        &mut self,
        token: &Token,
        cursor: &mut usize,
    ) -> (r: Result<Flow, String>)
        requires
            old(self).wf(),
            old(self).state() == FieldState::AfterIdentifierInTemplate,
            old(self).depth() <= *old(cursor) < usize::MAX,
        ensures
            old(self).stepped(&*final(self), token@, *old(cursor), *final(cursor), r),
            r == Ok::<Flow, String>(Flow::Continue) ==> final(self).wf(),
    {
        match token {
            Token::Comma => {
                self.output.append(", ");
                self.state = FieldState::ExpectIdentifierInTemplate;
                *cursor = *cursor + 1;
                Ok(Flow::Continue)
            },
            Token::TemplateStart => {
                self.output.push('<');
                self.templateDepth = self.templateDepth + 1;
                self.state = FieldState::AfterTemplateStart;
                *cursor = *cursor + 1;
                Ok(Flow::Continue)
            },
            Token::TemplateEnd => self.closeTemplate(cursor),
            _ => Err(
                expected_got_message("Expected a comma, template start or template end", token),
            ),
        }
    }

    pub fn parseInAfterInnerTemplateEnd(&mut self, token: &Token, cursor: &mut usize) -> (r:
        Result<Flow, String>)
        requires
            old(self).wf(),
            old(self).state() == FieldState::AfterInnerTemplateEnd,
            *old(cursor) < usize::MAX,
        ensures
            old(self).stepped(&*final(self), token@, *old(cursor), *final(cursor), r),
            r == Ok::<Flow, String>(Flow::Continue) ==> final(self).wf(),
    {
        match token {
            Token::TemplateEnd => self.closeTemplate(cursor),
            Token::Comma => Err("A comma after a nested template end is not supported.".to_owned()),
            _ => Err(expected_got_message("Expected a comma or a template end", token)),
        }
    }

    pub fn parseInExpectIdentifierInTemplate(
        &mut self,
        token: &Token,
        cursor: &mut usize,
    ) -> (r: Result<Flow, String>)
        requires
            old(self).wf(),
            old(self).state() == FieldState::ExpectIdentifierInTemplate,
            *old(cursor) < usize::MAX,
        ensures
            old(self).stepped(&*final(self), token@, *old(cursor), *final(cursor), r),
            r == Ok::<Flow, String>(Flow::Continue) ==> final(self).wf(),
    {
        match token {
            Token::Identifier(name) => {
                self.output.append(name.as_str());
                self.state = FieldState::AfterIdentifierInTemplate;
                *cursor = *cursor + 1;
                Ok(Flow::Continue)
            },
            _ => Err(expected_got_message("Expected an identifier", token)),
        }
    }
}


/// The text of a token as the field parser writes it back.
pub open spec fn field_text(t: TokenView) -> Seq<char> {
    match t {
        TokenView::Identifier(s) => s,
        TokenView::TemplateStart => seq!['<'],
        TokenView::TemplateEnd => seq!['>'],
        TokenView::Comma => ", "@,
        _ => seq![],
    }
}

/// The texts of tokens written back one after the other.
pub open spec fn field_texts(tokens: Seq<TokenView>) -> Seq<char>
    decreases tokens.len(),
{
    if tokens.len() == 0 {
        seq![]
    } else {
        field_text(tokens[0]) + field_texts(tokens.drop_first())
    }
}

/// How much a sequence of tokens deepens the nesting: template starts less
/// template ends.
pub open spec fn depth_change(tokens: Seq<TokenView>) -> int
    decreases tokens.len(),
{
    if tokens.len() == 0 {
        0
    } else {
        (match tokens[0] {
            TokenView::TemplateStart => 1int,
            TokenView::TemplateEnd => -1int,
            _ => 0int,
        }) + depth_change(tokens.drop_first())
    }
}

proof fn lemma_run_writes_back(
    name: Seq<char>,
    tokens: Seq<TokenView>,
    pos: nat,
    state: FieldState,
    depth: nat,
    out: Seq<char>,
)
    ensures
        field_run(name, tokens, pos, state, depth, out) matches Ok((o, q)) ==> pos <= q
            <= tokens.len() && o == out + field_texts(tokens.subrange(pos as int, q as int)),
        field_run(name, tokens, pos, state, depth, out) matches Ok((o, q)) ==> depth_fits(
            state,
            depth,
        ) ==> depth + depth_change(tokens.subrange(pos as int, q as int)) == 0,
    decreases tokens.len() - pos,
{
    if pos < tokens.len() {
        let t = tokens[pos as int];
        let here = tokens.subrange(pos as int, pos + 1int);
        assert(here.drop_first() =~= seq![]);
        assert(here[0] == t);
        assert(field_texts(here.drop_first()) == Seq::<char>::empty());
        assert(depth_change(here.drop_first()) == 0);
        match field_step(name, state, depth, out, t) {
            FieldMove::Advance(s, d, o2) => {
                lemma_run_writes_back(name, tokens, pos + 1, s, d, o2);
                if let Ok((o, q)) = field_run(name, tokens, pos, state, depth, out) {
                    let span = tokens.subrange(pos as int, q as int);
                    assert(span.drop_first() =~= tokens.subrange(pos + 1int, q as int));
                    assert(o2 == out + field_text(t));
                    assert(span[0] == t);
                    assert(o =~= out + field_texts(span));
                }
            },
            FieldMove::Finish(o, consumed) => {
                if consumed {
                    assert(o =~= out + field_texts(here));
                } else {
                    assert(tokens.subrange(pos as int, pos as int) =~= seq![]);
                    assert(o =~= out + field_texts(tokens.subrange(pos as int, pos as int)));
                }
            },
            FieldMove::Fail(_) => {},
        }
    }
}

/// A field is written back as its tokens read: identifiers as they are,
/// `<` and `>`, and a comma followed by one space.
pub proof fn lemma_field_round_trip(name: Seq<char>, tokens: Seq<TokenView>, pos: nat)
    ensures
        parse_field(name, tokens, pos) matches Ok((o, q)) ==> o == field_texts(
            tokens.subrange(pos as int, q as int),
        ),
{
    lemma_run_writes_back(name, tokens, pos, FieldState::ExpectIdentifier, 0, seq![]);
    assert(Seq::<char>::empty() + field_texts(tokens.subrange(pos as int, 0)) =~= field_texts(
        tokens.subrange(pos as int, 0),
    ));
    if let Ok((o, q)) = parse_field(name, tokens, pos) {
        assert(o =~= field_texts(tokens.subrange(pos as int, q as int)));
    }
}

proof fn lemma_run_truncated(
    name: Seq<char>,
    tokens: Seq<TokenView>,
    pos: nat,
    state: FieldState,
    depth: nat,
    out: Seq<char>,
    k: nat,
)
    requires
        field_run(name, tokens, pos, state, depth, out) matches Ok((_, q)) && pos <= k < q,
        k <= tokens.len(),
    ensures
        field_run(name, tokens.take(k as int), pos, state, depth, out) == Err::<
            (Seq<char>, nat),
            Seq<char>,
        >(premature(name)),
    decreases tokens.len() - pos,
{
    if pos < k {
        assert(tokens.take(k as int)[pos as int] == tokens[pos as int]);
        match field_step(name, state, depth, out, tokens[pos as int]) {
            FieldMove::Advance(s, d, o) => {
                lemma_run_truncated(name, tokens, pos + 1, s, d, o, k);
            },
            _ => {},
        }
    }
}

proof fn lemma_run_depth_stays_nonnegative(
    name: Seq<char>,
    tokens: Seq<TokenView>,
    pos: nat,
    state: FieldState,
    depth: nat,
    out: Seq<char>,
)
    requires
        depth_fits(state, depth),
    ensures
        field_run(name, tokens, pos, state, depth, out) matches Ok((_, q)) ==> forall|k: int|
            pos <= k <= q ==> depth + depth_change(#[trigger] tokens.subrange(pos as int, k)) >= 0,
    decreases tokens.len() - pos,
{
    lemma_run_writes_back(name, tokens, pos, state, depth, out);
    if pos < tokens.len() {
        let t = tokens[pos as int];
        if let Ok((_, q)) = field_run(name, tokens, pos, state, depth, out) {
            match field_step(name, state, depth, out, t) {
                FieldMove::Advance(s, d, o) => {
                    lemma_run_depth_stays_nonnegative(name, tokens, pos + 1, s, d, o);
                    assert forall|k: int| pos <= k <= q implies depth + depth_change(
                        #[trigger] tokens.subrange(pos as int, k),
                    ) >= 0 by {
                        let span = tokens.subrange(pos as int, k);
                        if k > pos {
                            assert(span[0] == t);
                            assert(span.drop_first() =~= tokens.subrange(pos + 1int, k));
                        } else {
                            assert(span =~= Seq::<TokenView>::empty());
                        }
                    }
                },
                _ => {
                    assert forall|k: int| pos <= k <= q implies depth + depth_change(
                        #[trigger] tokens.subrange(pos as int, k),
                    ) >= 0 by {
                        let span = tokens.subrange(pos as int, k);
                        if k > pos {
                            assert(span[0] == t);
                            assert(span.drop_first() =~= Seq::<TokenView>::empty());
                        } else {
                            assert(span =~= Seq::<TokenView>::empty());
                        }
                    }
                },
            }
        }
    }
}

/// A field ends only where its nesting depth has returned to 0: the template
/// starts and ends that it spans balance, no part of it from its start goes
/// below depth 0, and tokens that stop anywhere before its end leave it
/// unfinished, which is the premature-end error.
pub proof fn lemma_field_needs_depth_zero(name: Seq<char>, tokens: Seq<TokenView>, pos: nat, k: nat)
    ensures
        parse_field(name, tokens, pos) matches Ok((_, q)) ==> depth_change(
            tokens.subrange(pos as int, q as int),
        ) == 0,
        parse_field(name, tokens, pos) matches Ok((_, q)) ==> forall|k: int|
            pos <= k <= q ==> depth_change(#[trigger] tokens.subrange(pos as int, k)) >= 0,
        parse_field(name, tokens, pos) matches Ok((_, q)) && pos <= k < q ==> parse_field(
            name,
            tokens.take(k as int),
            pos,
        ) == Err::<(Seq<char>, nat), Seq<char>>(premature(name)),
{
    lemma_run_writes_back(name, tokens, pos, FieldState::ExpectIdentifier, 0, seq![]);
    lemma_run_depth_stays_nonnegative(name, tokens, pos, FieldState::ExpectIdentifier, 0, seq![]);
    if let Ok((_, q)) = parse_field(name, tokens, pos) {
        if pos <= k < q {
            assert(k <= tokens.len());
            lemma_run_truncated(name, tokens, pos, FieldState::ExpectIdentifier, 0, seq![], k);
        }
    }
}


proof fn lemma_run_in_window(
    name: Seq<char>,
    tokens: Seq<TokenView>,
    pos: nat,
    state: FieldState,
    depth: nat,
    out: Seq<char>,
    base: nat,
)
    requires
        base <= pos,
        field_run(name, tokens, pos, state, depth, out) matches Ok((_, q)) && pos < q
            && tokens[q - 1] == TokenView::TemplateEnd,
    ensures
        field_run(name, tokens, pos, state, depth, out) matches Ok((o, q)) ==> (forall|j: int|
            pos <= j < q ==> is_separator_token(#[trigger] tokens[j]) || (tokens[j] is Identifier
                && j + 1 < q && is_separator_token(tokens[j + 1]))) && field_run(
            name,
            tokens.subrange(base as int, q as int),
            (pos - base) as nat,
            state,
            depth,
            out,
        ) == Ok::<(Seq<char>, nat), Seq<char>>((o, (q - base) as nat)),
    decreases tokens.len() - pos,
{
    lemma_run_writes_back(name, tokens, pos, state, depth, out);
    let (o, q) = field_run(name, tokens, pos, state, depth, out)->Ok_0;
    let t = tokens[pos as int];
    let w = tokens.subrange(base as int, q as int);
    assert(w[pos - base] == t);
    match field_step(name, state, depth, out, t) {
        FieldMove::Advance(s, d, o2) => {
            lemma_run_writes_back(name, tokens, pos + 1, s, d, o2);
            if pos + 1 < tokens.len() {
                let u = tokens[pos + 1int];
                match field_step(name, s, d, o2, u) {
                    FieldMove::Advance(s2, d2, o3) => {
                        lemma_run_writes_back(name, tokens, pos + 2, s2, d2, o3);
                    },
                    _ => {},
                }
            }
            assert(q > pos + 1);
            lemma_run_in_window(name, tokens, pos + 1, s, d, o2, base);
            if t is Identifier {
                assert(is_separator_token(tokens[pos + 1int]));
            }
        },
        _ => {},
    }
}

/// A generic field reads the same when its rebuilt text is tokenized again:
/// the tokenizer gives back the tokens the field spans, and parsing them as
/// a field rebuilds the same text. (Identifiers are taken as the tokenizer
/// makes them.)
pub proof fn lemma_field_reparse(name: Seq<char>, tokens: Seq<TokenView>, pos: nat)
    requires
        parse_field(name, tokens, pos) matches Ok((_, q)) && pos < q && tokens[q - 1]
            == TokenView::TemplateEnd,
        identifiers_lexable(tokens),
    ensures
        parse_field(name, tokens, pos) matches Ok((o, q)) ==> lex(o) == tokens.subrange(
            pos as int,
            q as int,
        ) && parse_field(name, lex(o), 0) == Ok::<(Seq<char>, nat), Seq<char>>(
            (o, lex(o).len()),
        ),
{
    let (o, q) = parse_field(name, tokens, pos)->Ok_0;
    let w = tokens.subrange(pos as int, q as int);
    lemma_field_round_trip(name, tokens, pos);
    lemma_run_writes_back(name, tokens, pos, FieldState::ExpectIdentifier, 0, seq![]);
    lemma_run_in_window(name, tokens, pos, FieldState::ExpectIdentifier, 0, seq![], pos);
    assert(written_form(w)) by {
        assert forall|j: int| 0 <= j < w.len() implies is_separator_token(#[trigger] w[j]) || (
        w[j] is Identifier && lexable_identifier(w[j]->Identifier_0) && j + 1 < w.len()
            && is_separator_token(w[j + 1])) by {
            assert(w[j] == tokens[pos + j]);
            if j + 1 < w.len() {
                assert(w[j + 1] == tokens[pos + j + 1]);
            }
        }
    }
    lemma_lex_written(w, seq![]);
    assert(Seq::<TokenView>::empty() + w =~= w);
}

/// A generic field of a tokenized text reads the same when its rebuilt text
/// is fed back through the tokenizer and parsed as a field again.
pub proof fn lemma_tokenized_field_reparse(name: Seq<char>, text: Seq<char>, pos: nat)
    requires
        parse_field(name, lex(text), pos) matches Ok((_, q)) && pos < q && lex(text)[q - 1]
            == TokenView::TemplateEnd,
    ensures
        parse_field(name, lex(text), pos) matches Ok((o, q)) ==> lex(o) == lex(text).subrange(
            pos as int,
            q as int,
        ) && parse_field(name, lex(o), 0) == Ok::<(Seq<char>, nat), Seq<char>>(
            (o, lex(o).len()),
        ),
{
    lemma_lex_identifiers_lexable(text);
    lemma_field_reparse(name, lex(text), pos);
}


/// Every diagnostic of the field parser starts with `E`, `W` or `A`.
pub proof fn lemma_field_run_message(
    name: Seq<char>,
    tokens: Seq<TokenView>,
    pos: nat,
    state: FieldState,
    depth: nat,
    out: Seq<char>,
)
    ensures
        field_run(name, tokens, pos, state, depth, out) matches Err(m) ==> m.len() > 0 && (m[0]
            == 'E' || m[0] == 'W' || m[0] == 'A'),
    decreases tokens.len() - pos,
{
    reveal_strlit("A comma after a nested template end is not supported.");
    reveal_strlit("Expected ");
    reveal_strlit("Expected a comma or a template end");
    reveal_strlit("Expected a comma, template start or template end");
    reveal_strlit("Expected an identifier or a template end");
    reveal_strlit("Expected an identifier");
    reveal_strlit("While parsing ");
    if pos < tokens.len() {
        match field_step(name, state, depth, out, tokens[pos as int]) {
            FieldMove::Advance(s, d, o) => {
                lemma_field_run_message(name, tokens, pos + 1, s, d, o);
            },
            _ => {},
        }
    }
}


/// The field parser reads the same inside a longer token sequence: a run that
/// succeeds on a window succeeds at the same place of the whole, shifted.
pub proof fn lemma_field_run_shift(
    name: Seq<char>,
    whole: Seq<TokenView>,
    window: Seq<TokenView>,
    off: nat,
    i: nat,
    state: FieldState,
    depth: nat,
    out: Seq<char>,
)
    requires
        off + window.len() <= whole.len(),
        whole.subrange(off as int, (off + window.len()) as int) == window,
        field_run(name, window, i, state, depth, out) is Ok,
    ensures
        field_run(name, window, i, state, depth, out) matches Ok((o, q)) ==> field_run(
            name,
            whole,
            off + i,
            state,
            depth,
            out,
        ) == Ok::<(Seq<char>, nat), Seq<char>>((o, off + q)),
    decreases window.len() - i,
{
    if i < window.len() {
        assert(whole[(off + i) as int] == window[i as int]);
        match field_step(name, state, depth, out, window[i as int]) {
            FieldMove::Advance(s, d, o) => {
                lemma_field_run_shift(name, whole, window, off, i + 1, s, d, o);
            },
            _ => {},
        }
    }
}

/// A field that the field parser reads completely, whatever it is called and
/// whether a comma or a template end follows it, rebuilding it as written back.
pub open spec fn complete_field(f: Seq<TokenView>) -> bool {
    forall|name: Seq<char>, u: TokenView|
        (u is Comma || u is TemplateEnd) ==> #[trigger] parse_field(name, f.push(u), 0) == Ok::<
            (Seq<char>, nat),
            Seq<char>,
        >((field_texts(f), f.len()))
}


/// Whether a state lies inside an argument list.
spec fn in_template(state: FieldState) -> bool {
    !(state == FieldState::ExpectIdentifier || state == FieldState::AfterIdentifier)
}

/// Inside an argument list a field can only end by consuming a template end.
proof fn lemma_template_run_ends_closed(
    name: Seq<char>,
    tokens: Seq<TokenView>,
    pos: nat,
    state: FieldState,
    depth: nat,
    out: Seq<char>,
)
    requires
        in_template(state),
    ensures
        field_run(name, tokens, pos, state, depth, out) matches Ok((_, q)) ==> pos < q
            <= tokens.len() && tokens[q - 1] == TokenView::TemplateEnd,
    decreases tokens.len() - pos,
{
    if pos < tokens.len() {
        match field_step(name, state, depth, out, tokens[pos as int]) {
            FieldMove::Advance(s, d, o) => {
                lemma_template_run_ends_closed(name, tokens, pos + 1, s, d, o);
            },
            _ => {},
        }
    }
}

proof fn lemma_field_texts_push(tokens: Seq<TokenView>, t: TokenView)
    ensures
        field_texts(tokens.push(t)) == field_texts(tokens) + field_text(t),
    decreases tokens.len(),
{
    assert(tokens.push(t)[0] == if tokens.len() == 0 {
        t
    } else {
        tokens[0]
    });
    if tokens.len() == 0 {
        assert(tokens.push(t).drop_first() =~= Seq::<TokenView>::empty());
        assert(field_texts(Seq::<TokenView>::empty()) == Seq::<char>::empty());
        assert(field_texts(tokens.push(t)) =~= field_texts(tokens) + field_text(t));
    } else {
        assert(tokens.push(t).drop_first() =~= tokens.drop_first().push(t));
        lemma_field_texts_push(tokens.drop_first(), t);
        assert(field_texts(tokens.push(t)) =~= field_texts(tokens) + field_text(t));
    }
}

/// Any field, a bare identifier or a generic expression, reads the same when
/// its rebuilt text, followed by the comma that separates fields in a row, is
/// fed back through the tokenizer: the tokens are the field's own and that
/// comma, and the field parser rebuilds the same text and stops before the comma.
pub proof fn lemma_field_reparse_before_comma(name: Seq<char>, text: Seq<char>, pos: nat)
    ensures
        parse_field(name, lex(text), pos) matches Ok((o, q)) ==> lex(o + ", "@)
            == lex(text).subrange(pos as int, q as int).push(TokenView::Comma) && parse_field(
            name,
            lex(o + ", "@),
            0,
        ) == Ok::<(Seq<char>, nat), Seq<char>>((o, (q - pos) as nat)),
{
    let tokens = lex(text);
    if let Ok((o, q)) = parse_field(name, tokens, pos) {
        reveal_strlit(", ");
        lemma_lex_identifiers_lexable(text);
        lemma_field_round_trip(name, tokens, pos);
        lemma_run_writes_back(name, tokens, pos, FieldState::ExpectIdentifier, 0, seq![]);
        let w = tokens.subrange(pos as int, q as int);
        let wc = w.push(TokenView::Comma);
        assert(tokens[pos as int] is Identifier);
        let x = tokens[pos as int]->Identifier_0;
        let generic = pos + 1 < tokens.len() && tokens[pos + 1int] is TemplateStart;
        assert(Seq::<char>::empty() + x =~= x);
        assert(parse_field(name, tokens, pos) == field_run(
            name,
            tokens,
            pos + 1,
            FieldState::AfterIdentifier,
            0,
            x,
        ));
        if generic {
            assert(field_run(name, tokens, pos + 1, FieldState::AfterIdentifier, 0, x) == field_run(
                name,
                tokens,
                pos + 2,
                FieldState::AfterTemplateStart,
                1,
                x.push('<'),
            ));
            lemma_template_run_ends_closed(
                name,
                tokens,
                pos + 2,
                FieldState::AfterTemplateStart,
                1,
                x.push('<'),
            );
            assert(Seq::<char>::empty() + x =~= x);
            lemma_run_in_window(name, tokens, pos, FieldState::ExpectIdentifier, 0, seq![], pos);
            assert(wc.subrange(0, w.len() as int) =~= w);
            lemma_field_run_shift(name, wc, w, 0, 0, FieldState::ExpectIdentifier, 0, seq![]);
        } else {
            assert(Seq::<char>::empty() + x =~= x);
            assert(q == pos + 1);
            assert(w =~= seq![TokenView::Identifier(x)]);
            assert(wc[1] == TokenView::Comma);
            assert(field_run(name, wc, 1, FieldState::AfterIdentifier, 0, x) == Ok::<
                (Seq<char>, nat),
                Seq<char>,
            >((x, 1)));
        }
        assert(written_form(wc)) by {
            assert forall|j: int| 0 <= j < wc.len() implies is_separator_token(#[trigger] wc[j])
                || (wc[j] is Identifier && lexable_identifier(wc[j]->Identifier_0) && j + 1
                < wc.len() && is_separator_token(wc[j + 1])) by {
                if j < w.len() {
                    assert(wc[j] == tokens[pos + j]);
                    if j + 1 < w.len() {
                        assert(wc[j + 1] == tokens[pos + j + 1]);
                    }
                }
            }
        }
        lemma_field_texts_push(w, TokenView::Comma);
        lemma_lex_written(wc, seq![]);
        assert(Seq::<TokenView>::empty() + wc =~= wc);
    }
}

} // verus!
