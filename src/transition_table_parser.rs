//! The table parser: tokens in, rows out.
use crate::flow::Flow;
use crate::pattern::{regex_compiles, regex_finds, TextPattern};
use crate::row::{empty_row, row_views, Row, RowKind, RowView};
use crate::row_section_parser::{
    complete_field, field_run, field_step, field_texts, lemma_field_run_message,
    lemma_field_run_shift, parse_field, FieldMove, FieldState, RowSectionParser,
};
use crate::text::same_text;
use crate::token::{expected_got, expected_got_message, views, Token, TokenView};
use crate::transition_table_lexer::{lemma_lex_identifiers_lexable, lex};
use vstd::prelude::*;

verus! {

/// The regular expression that row identifiers match: names ending in `row`,
/// in any case.
pub open spec fn row_pattern() -> Seq<char> {
    "(?i)row$"@
}

/// Whether an identifier names a row.
pub open spec fn is_row_identifier(name: Seq<char>) -> bool {
    regex_finds(row_pattern(), name)
}

/// Whether a token is a row identifier.
pub open spec fn is_row_token(t: TokenView) -> bool {
    match t {
        TokenView::Identifier(s) => is_row_identifier(s),
        _ => false,
    }
}

/// The identifier of rows whose only optional field is a guard.
pub open spec fn guard_row_identifier() -> Seq<char> {
    "g_row"@
}

/// The kind that a row identifier selects.
pub open spec fn row_kind_of(name: Seq<char>) -> RowKind {
    if name == guard_row_identifier() {
        RowKind::WithGuard
    } else {
        RowKind::Other
    }
}

/// What the field parser calls an action field.
pub open spec fn action_name() -> Seq<char> {
    "an action"@
}

/// What the field parser calls a guard field.
pub open spec fn guard_name() -> Seq<char> {
    "a guard"@
}

/// The diagnostic when no token is a row identifier.
pub open spec fn rows_not_found() -> Seq<char> {
    "Rows were not found in the transition table."@
}

/// The diagnostic when the tokens end before the table is closed.
pub open spec fn table_unfinished() -> Seq<char> {
    "Tokens ended before the transition table was closed."@
}

/// Where the table parser stands between two tokens.
#[derive(Debug, PartialEq, Eq, Structural, Clone, Copy)]
pub enum TableState {
    ExpectRowIdentifier,
    ExpectRowTemplateStart,
    ExpectStartState,
    ExpectCommaAfterStartState,
    ExpectEvent,
    ExpectCommaAfterEvent,
    ExpectTargetState,
    AfterTargetState,
    ExpectAction,
    AfterAction,
    ExpectGuard,
    ExpectRowEnd,
    AfterRowEnd,
}

/// What the table parser does with one token, outside the action and guard fields.
pub ghost enum TokenMove {
    Advance(TableState, Seq<RowView>),
    Done(Seq<RowView>),
    Fail(Seq<char>),
}

/// The rows with the last one replaced.
pub open spec fn with_last(rows: Seq<RowView>, row: RowView) -> Seq<RowView> {
    rows.update(rows.len() - 1, row)
}

pub open spec fn with_start(rows: Seq<RowView>, s: Seq<char>) -> Seq<RowView> {
    with_last(rows, RowView { start: s, ..rows.last() })
}

pub open spec fn with_event(rows: Seq<RowView>, s: Seq<char>) -> Seq<RowView> {
    with_last(rows, RowView { event: s, ..rows.last() })
}

pub open spec fn with_target(rows: Seq<RowView>, s: Seq<char>) -> Seq<RowView> {
    with_last(rows, RowView { target: s, ..rows.last() })
}

pub open spec fn with_action(rows: Seq<RowView>, s: Seq<char>) -> Seq<RowView> {
    with_last(rows, RowView { action: s, ..rows.last() })
}

pub open spec fn with_guard(rows: Seq<RowView>, s: Seq<char>) -> Seq<RowView> {
    with_last(rows, RowView { guard: s, ..rows.last() })
}

/// The transition function of the table parser on one token, for every state
/// but the two that hand over to the field parser.
pub open spec fn table_step(state: TableState, rows: Seq<RowView>, t: TokenView) -> TokenMove {
    match state {
        TableState::ExpectRowIdentifier => match t {
            TokenView::Identifier(s) => if is_row_identifier(s) {
                TokenMove::Advance(
                    TableState::ExpectRowTemplateStart,
                    rows.push(empty_row(row_kind_of(s))),
                )
            } else {
                TokenMove::Fail(expected_got("Expected row identifier"@, t))
            },
            _ => TokenMove::Fail(expected_got("Expected row identifier"@, t)),
        },
        TableState::ExpectRowTemplateStart => match t {
            TokenView::TemplateStart => TokenMove::Advance(TableState::ExpectStartState, rows),
            _ => TokenMove::Fail(expected_got("Expected row template start"@, t)),
        },
        TableState::ExpectStartState => match t {
            TokenView::Identifier(s) => TokenMove::Advance(
                TableState::ExpectCommaAfterStartState,
                with_start(rows, s),
            ),
            _ => TokenMove::Fail(expected_got("Expected start state"@, t)),
        },
        TableState::ExpectCommaAfterStartState => match t {
            TokenView::Comma => TokenMove::Advance(TableState::ExpectEvent, rows),
            _ => TokenMove::Fail(expected_got("Expected comma after start state"@, t)),
        },
        TableState::ExpectEvent => match t {
            TokenView::Identifier(s) => TokenMove::Advance(
                TableState::ExpectCommaAfterEvent,
                with_event(rows, s),
            ),
            _ => TokenMove::Fail(expected_got("Expected event"@, t)),
        },
        TableState::ExpectCommaAfterEvent => match t {
            TokenView::Comma => TokenMove::Advance(TableState::ExpectTargetState, rows),
            _ => TokenMove::Fail(expected_got("Expected comma after event"@, t)),
        },
        TableState::ExpectTargetState => match t {
            TokenView::Identifier(s) => TokenMove::Advance(
                TableState::AfterTargetState,
                with_target(rows, s),
            ),
            _ => TokenMove::Fail(expected_got("Expected target state"@, t)),
        },
        TableState::AfterTargetState => match t {
            TokenView::Comma => if rows.last().kind == RowKind::WithGuard {
                TokenMove::Advance(TableState::ExpectGuard, rows)
            } else {
                TokenMove::Advance(TableState::ExpectAction, rows)
            },
            TokenView::TemplateEnd => TokenMove::Advance(TableState::AfterRowEnd, rows),
            _ => TokenMove::Fail(
                expected_got("Expected comma or template end symbol after target state"@, t),
            ),
        },
        TableState::AfterAction => match t {
            TokenView::Comma => TokenMove::Advance(TableState::ExpectGuard, rows),
            TokenView::TemplateEnd => TokenMove::Advance(TableState::AfterRowEnd, rows),
            _ => TokenMove::Fail(expected_got("Expected a comma or a template end after action"@, t)),
        },
        TableState::ExpectRowEnd => match t {
            TokenView::TemplateEnd => TokenMove::Advance(TableState::AfterRowEnd, rows),
            _ => TokenMove::Fail(expected_got("Expected a template end"@, t)),
        },
        TableState::AfterRowEnd => match t {
            TokenView::Comma => TokenMove::Advance(TableState::ExpectRowIdentifier, rows),
            TokenView::TemplateEnd => TokenMove::Done(rows),
            _ => TokenMove::Fail(expected_got("Expected a comma or a template end after row"@, t)),
        },
        // These two states hand the tokens to the field parser; see `table_advance`.
        TableState::ExpectAction | TableState::ExpectGuard => TokenMove::Fail(seq![]),
    }
}

/// What the table parser does at token `pos`: go on in a state, with rows,
/// from a position; finish with rows; or fail.
pub ghost enum TableMove {
    Advance(TableState, Seq<RowView>, nat),
    Done(Seq<RowView>),
    Fail(Seq<char>),
}

/// One move of the table parser at token `pos`; the action and guard fields
/// are handed to the field parser, which may take several tokens.
pub open spec fn table_advance(
    tokens: Seq<TokenView>,
    pos: nat,
    state: TableState,
    rows: Seq<RowView>,
) -> TableMove {
    match state {
        TableState::ExpectAction => match parse_field(action_name(), tokens, pos) {
            Ok((o, q)) => TableMove::Advance(TableState::AfterAction, with_action(rows, o), q),
            Err(m) => TableMove::Fail(m),
        },
        TableState::ExpectGuard => match parse_field(guard_name(), tokens, pos) {
            Ok((o, q)) => TableMove::Advance(TableState::ExpectRowEnd, with_guard(rows, o), q),
            Err(m) => TableMove::Fail(m),
        },
        _ => match table_step(state, rows, tokens[pos as int]) {
            TokenMove::Advance(s, rs) => TableMove::Advance(s, rs, pos + 1),
            TokenMove::Done(rs) => TableMove::Done(rs),
            TokenMove::Fail(m) => TableMove::Fail(m),
        },
    }
}

/// A field that parses ends after the token where it starts.
pub proof fn lemma_field_run_moves(
    name: Seq<char>,
    tokens: Seq<TokenView>,
    pos: nat,
    state: FieldState,
    depth: nat,
    out: Seq<char>,
)
    ensures
        field_run(name, tokens, pos, state, depth, out) matches Ok((_, q)) ==> pos <= q
            <= tokens.len() && (state == FieldState::ExpectIdentifier ==> pos < q),
    decreases tokens.len() - pos,
{
    if pos < tokens.len() {
        match field_step(name, state, depth, out, tokens[pos as int]) {
            FieldMove::Advance(s, d, o) => {
                lemma_field_run_moves(name, tokens, pos + 1, s, d, o);
            },
            _ => {},
        }
    }
}

/// Every move of the table parser goes forward.
pub proof fn lemma_table_advance_moves(
    tokens: Seq<TokenView>,
    pos: nat,
    state: TableState,
    rows: Seq<RowView>,
)
    requires
        pos < tokens.len(),
    ensures
        table_advance(tokens, pos, state, rows) matches TableMove::Advance(_, _, q) ==> pos < q
            <= tokens.len(),
{
    lemma_field_run_moves(action_name(), tokens, pos, FieldState::ExpectIdentifier, 0, seq![]);
    lemma_field_run_moves(guard_name(), tokens, pos, FieldState::ExpectIdentifier, 0, seq![]);
}

/// The table parser run from token `pos` on: all rows, or the first diagnostic.
pub open spec fn table_run(
    tokens: Seq<TokenView>,
    pos: nat,
    state: TableState,
    rows: Seq<RowView>,
) -> Result<Seq<RowView>, Seq<char>>
    decreases tokens.len() - pos,
{
    if pos >= tokens.len() {
        Err(table_unfinished())
    } else {
        match table_advance(tokens, pos, state, rows) {
            TableMove::Advance(s, rs, q) => {
                proof {
                    lemma_table_advance_moves(tokens, pos, state, rows);
                }
                table_run(tokens, q, s, rs)
            },
            TableMove::Done(rs) => Ok(rs),
            TableMove::Fail(m) => Err(m),
        }
    }
}

/// Once a row identifier has been read, the rows stay non-empty; so a table
/// that parses has at least one row.
pub proof fn lemma_table_run_has_rows(
    tokens: Seq<TokenView>,
    pos: nat,
    state: TableState,
    rows: Seq<RowView>,
)
    requires
        state != TableState::ExpectRowIdentifier ==> rows.len() > 0,
    ensures
        table_run(tokens, pos, state, rows) matches Ok(rs) ==> rs.len() > 0,
    decreases tokens.len() - pos,
{
    if pos < tokens.len() {
        lemma_table_advance_moves(tokens, pos, state, rows);
        match table_advance(tokens, pos, state, rows) {
            TableMove::Advance(s, rs, q) => {
                lemma_table_run_has_rows(tokens, q, s, rs);
            },
            _ => {},
        }
    }
}

/// A table that parses has at least one row.
pub proof fn lemma_parsed_table_has_rows(tokens: Seq<TokenView>)
    ensures
        parse_table(tokens) matches Ok(rows) ==> rows.len() > 0,
{
    match first_row_from(tokens, 0) {
        Some(i) => lemma_table_run_has_rows(tokens, i, TableState::ExpectRowIdentifier, seq![]),
        None => {},
    }
}

/// The first row identifier at or after token `i`.
pub open spec fn first_row_from(tokens: Seq<TokenView>, i: nat) -> Option<nat>
    decreases tokens.len() - i,
{
    if i >= tokens.len() {
        None
    } else if is_row_token(tokens[i as int]) {
        Some(i)
    } else {
        first_row_from(tokens, i + 1)
    }
}

pub proof fn lemma_first_row_in_range(tokens: Seq<TokenView>, i: nat)
    ensures
        first_row_from(tokens, i) matches Some(j) ==> i <= j < tokens.len() && is_row_token(
            tokens[j as int],
        ),
    decreases tokens.len() - i,
{
    if i < tokens.len() && !is_row_token(tokens[i as int]) {
        lemma_first_row_in_range(tokens, i + 1);
    }
}

/// The rows of a token sequence, read from its first row identifier on, or
/// the first diagnostic.
pub open spec fn parse_table(tokens: Seq<TokenView>) -> Result<Seq<RowView>, Seq<char>> {
    match first_row_from(tokens, 0) {
        None => Err(rows_not_found()),
        Some(i) => table_run(tokens, i, TableState::ExpectRowIdentifier, seq![]),
    }
}


/// The kind that a row identifier selects: the guard row identifier selects
/// `WithGuard`, any other `Other`.
pub fn selectRowKind(name: &str) -> (r: RowKind)
    ensures
        r == row_kind_of(name@),
{
    if same_text(name, "g_row") {
        RowKind::WithGuard
    } else {
        RowKind::Other
    }
}

/// Parses a token sequence into rows.
///
/// The row identifier pattern is compiled first; if the `regex` crate refuses
/// it, the diagnostic says so. Otherwise the result is that of `parse_table`.
pub fn parseTransitionTable(tokens: &Vec<Token>) -> (r: Result<Vec<Row>, String>)
    ensures
        regex_compiles(row_pattern()) ==> match r {
            Ok(rows) => parse_table(views(tokens@)) == Ok::<Seq<RowView>, Seq<char>>(
                row_views(rows@),
            ),
            Err(m) => parse_table(views(tokens@)) == Err::<Seq<RowView>, Seq<char>>(m@),
        },
        !regex_compiles(row_pattern()) ==> r is Err && r->Err_0@ == pattern_refused(),
{
    match Parser::new() {
        Ok(parser) => parser.parse(tokens),
        Err(m) => Err(m),
    }
}

/// The diagnostic when the row identifier pattern cannot be compiled.
pub open spec fn pattern_refused() -> Seq<char> {
    "The row identifier pattern could not be compiled."@
}

/// The table parser's state machine.
pub struct Parser {
    state: TableState,
    rowPattern: TextPattern,
    rows: Vec<Row>,
}

impl Parser {
    pub closed spec fn state(&self) -> TableState {
        self.state
    }

    pub closed spec fn rows(&self) -> Seq<RowView> {
        row_views(self.rows@)
    }

    pub closed spec fn wf(&self) -> bool {
        &&& self.rowPattern.source() == row_pattern()
        &&& self.state != TableState::ExpectRowIdentifier ==> self.rows@.len() > 0
    }

    /// `next` is this parser after its move on `t`, which returned `r`.
    pub open spec fn stepped(&self, next: &Self, t: TokenView, r: Result<Flow, String>) -> bool {
        &&& next.wf()
        &&& match table_step(self.state(), self.rows(), t) {
            TokenMove::Advance(s, rs) => {
                &&& r == Ok::<Flow, String>(Flow::Continue)
                &&& next.state() == s
                &&& next.rows() == rs
            },
            TokenMove::Done(rs) => r == Ok::<Flow, String>(Flow::Break) && next.rows() == rs,
            TokenMove::Fail(m) => {
                &&& r is Err
                &&& r->Err_0@ == m
                &&& next.state() == self.state()
                &&& next.rows() == self.rows()
            },
        }
    }

    /// Once a row identifier has been read, there is a row being filled.
    pub proof fn lemma_rows_started(&self)
        requires
            self.wf(),
        ensures
            self.state() != TableState::ExpectRowIdentifier ==> self.rows().len() > 0,
    {
    }

    /// A parser at the start of a table, or the diagnostic when the row
    /// identifier pattern cannot be compiled.
    pub fn new() -> (r: Result<Self, String>)
        ensures
            r is Ok <==> regex_compiles(row_pattern()),
            match r {
                Ok(p) => p.wf() && p.state() == TableState::ExpectRowIdentifier && p.rows()
                    == Seq::<RowView>::empty(),
                Err(m) => m@ == pattern_refused(),
            },
    {
        match TextPattern::compile("(?i)row$") {
            Ok(rowPattern) => {
                let p = Parser { state: TableState::ExpectRowIdentifier, rowPattern, rows: Vec::new() };
                assert(p.rows() =~= Seq::<RowView>::empty());
                Ok(p)
            },
            Err(_) => Err("The row identifier pattern could not be compiled.".to_owned()),
        }
    }

    /// Reads all rows from the first row identifier on.
    pub fn parse(self, tokens: &Vec<Token>) -> (r: Result<Vec<Row>, String>)
        requires
            self.wf(),
            self.state() == TableState::ExpectRowIdentifier,
            self.rows() == Seq::<RowView>::empty(),
        ensures
            match r {
                Ok(rows) => parse_table(views(tokens@)) == Ok::<Seq<RowView>, Seq<char>>(
                    row_views(rows@),
                ),
                Err(m) => parse_table(views(tokens@)) == Err::<Seq<RowView>, Seq<char>>(m@),
            },
    {
        let mut parser = self;
        let ghost toks = views(tokens@);
        let first = match parser.findFirstRow(tokens) {
            Some(index) => index,
            None => {
                return Err("Rows were not found in the transition table.".to_owned());
            },
        };
        let ghost goal = parse_table(toks);
        proof {
            lemma_first_row_in_range(toks, 0);
            assert(parser.rows() =~= seq![]);
        }
        let mut cursor = first;
        while cursor < tokens.len()
            invariant
                parser.wf(),
                cursor <= tokens@.len(),
                toks == views(tokens@),
                goal == parse_table(toks),
                table_run(toks, cursor as nat, parser.state(), parser.rows()) == goal,
            decreases tokens@.len() - cursor,
        {
            let ghost c0 = cursor;
            let ghost p0 = parser;
            proof {
                lemma_table_advance_moves(toks, c0 as nat, p0.state(), p0.rows());
            }
            match parser.parseToken(tokens, &mut cursor) {
                Ok(Flow::Continue) => {},
                Ok(Flow::Break) => {
                    return Ok(parser.rows);
                },
                Err(e) => {
                    return Err(e);
                },
            }
        }
        Err("Tokens ended before the transition table was closed.".to_owned())
    }

    /// The position of the first row identifier.
    pub fn findFirstRow(&self, tokens: &Vec<Token>) -> (r: Option<usize>)
        requires
            self.wf(),
        ensures
            match r {
                Some(i) => first_row_from(views(tokens@), 0) == Some(i as nat),
                None => first_row_from(views(tokens@), 0) is None,
            },
    {
        let ghost toks = views(tokens@);
        let mut i: usize = 0;
        while i < tokens.len()
            invariant
                self.wf(),
                i <= tokens@.len(),
                toks == views(tokens@),
                first_row_from(toks, 0) == first_row_from(toks, i as nat),
            decreases tokens@.len() - i,
        {
            assert(toks[i as int] == tokens@[i as int]@);
            proof {
                lemma_first_row_in_range(toks, i as nat);
            }
            if let Token::Identifier(name) = &tokens[i] {
                if self.rowPattern.is_match(name.as_str()) {
                    return Some(i);
                }
            }
            i = i + 1;
        }
        None
    }

    /// One move at token `*cursor`: the action and guard fields take as many
    /// tokens as the field parser reads, every other state one token.
    pub fn parseToken(&mut self, tokens: &Vec<Token>, cursor: &mut usize) -> (r: Result<
        Flow,
        String,
    >)
        requires
            old(self).wf(),
            *old(cursor) < tokens@.len(),
        ensures
            final(self).wf(),
            match table_advance(views(tokens@), *old(cursor) as nat, old(self).state(), old(self).rows()) {
                TableMove::Advance(s, rs, q) => {
                    &&& r == Ok::<Flow, String>(Flow::Continue)
                    &&& final(self).state() == s
                    &&& final(self).rows() == rs
                    &&& *final(cursor) == q
                },
                TableMove::Done(rs) => r == Ok::<Flow, String>(Flow::Break) && final(self).rows()
                    == rs,
                TableMove::Fail(m) => {
                    &&& r is Err
                    &&& r->Err_0@ == m
                    &&& final(self).state() == old(self).state()
                    &&& final(self).rows() == old(self).rows()
                },
            },
    {
        match self.state {
            TableState::ExpectAction => self.parseTokenInExpectAction(tokens, cursor),
            TableState::ExpectGuard => self.parseTokenInExpectGuard(tokens, cursor),
            _ => {
                let n = tokens.len();
                let token = &tokens[*cursor];
                assert(views(tokens@)[*cursor as int] == token@);
                let r = match self.state {
                    TableState::ExpectRowIdentifier => self.parseTokenInInitialState(token),
                    TableState::ExpectRowTemplateStart => self.parseTokenInExpectRowTemplateStart(
                        token,
                    ),
                    TableState::ExpectStartState => self.parseTokenInExpectStartState(token),
                    TableState::ExpectCommaAfterStartState => self.parseTokenInExpectCommaAfterStartState(
                        token,
                    ),
                    TableState::ExpectEvent => self.parseTokenInExpectEvent(token),
                    TableState::ExpectCommaAfterEvent => self.parseTokenInExpectCommaAfterEvent(
                        token,
                    ),
                    TableState::ExpectTargetState => self.parseTokenInExpectTargetState(token),
                    TableState::AfterTargetState => self.parseTokenInAfterTargetState(token),
                    TableState::AfterAction => self.parseTokenInAfterAction(token),
                    TableState::ExpectRowEnd => self.parseTokenInExpectRowEnd(token),
                    _ => self.parseTokenInAfterRowEnd(token),
                };
                *cursor = *cursor + 1;
                r
            },
        }
    }

    pub fn parseTokenInInitialState(&mut self, token: &Token) -> (r: Result<Flow, String>)
        requires
            old(self).wf(),
            old(self).state() == TableState::ExpectRowIdentifier,
        ensures
            old(self).stepped(&*final(self), token@, r),
    {
        if let Token::Identifier(name) = token {
            if self.rowPattern.is_match(name.as_str()) {
                let row = Row::new(selectRowKind(name.as_str()));
                self.rows.push(row);
                proof {
                    assert(row_views(self.rows@) =~= row_views(old(self).rows@).push(row@));
                }
                self.state = TableState::ExpectRowTemplateStart;
                return Ok(Flow::Continue);
            }
        }
        Err(expected_got_message("Expected row identifier", token))
    }

    pub fn parseTokenInExpectRowTemplateStart(&mut self, token: &Token) -> (r: Result<
        Flow,
        String,
    >)
        requires
            old(self).wf(),
            old(self).state() == TableState::ExpectRowTemplateStart,
        ensures
            old(self).stepped(&*final(self), token@, r),
    {
        match token {
            Token::TemplateStart => {
                self.state = TableState::ExpectStartState;
                Ok(Flow::Continue)
            },
            _ => Err(expected_got_message("Expected row template start", token)),
        }
    }

    pub fn parseTokenInExpectStartState(&mut self, token: &Token) -> (r: Result<Flow, String>)
        requires
            old(self).wf(),
            old(self).state() == TableState::ExpectStartState,
        ensures
            old(self).stepped(&*final(self), token@, r),
    {
        match token {
            Token::Identifier(name) => {
                let mut row = self.takeLastRow();
                row.start = name.clone();
                self.putLastRow(row);
                proof {
                    assert(self.rows() =~= with_start(old(self).rows(), name@));
                }
                self.state = TableState::ExpectCommaAfterStartState;
                Ok(Flow::Continue)
            },
            _ => Err(expected_got_message("Expected start state", token)),
        }
    }

    pub fn parseTokenInExpectCommaAfterStartState(&mut self, token: &Token) -> (r: Result<
        Flow,
        String,
    >)
        requires
            old(self).wf(),
            old(self).state() == TableState::ExpectCommaAfterStartState,
        ensures
            old(self).stepped(&*final(self), token@, r),
    {
        match token {
            Token::Comma => {
                self.state = TableState::ExpectEvent;
                Ok(Flow::Continue)
            },
            _ => Err(expected_got_message("Expected comma after start state", token)),
        }
    }

    pub fn parseTokenInExpectEvent(&mut self, token: &Token) -> (r: Result<Flow, String>)
        requires
            old(self).wf(),
            old(self).state() == TableState::ExpectEvent,
        ensures
            old(self).stepped(&*final(self), token@, r),
    {
        match token {
            Token::Identifier(name) => {
                let mut row = self.takeLastRow();
                row.event = name.clone();
                self.putLastRow(row);
                proof {
                    assert(self.rows() =~= with_event(old(self).rows(), name@));
                }
                self.state = TableState::ExpectCommaAfterEvent;
                Ok(Flow::Continue)
            },
            _ => Err(expected_got_message("Expected event", token)),
        }
    }

    pub fn parseTokenInExpectCommaAfterEvent(&mut self, token: &Token) -> (r: Result<
        Flow,
        String,
    >)
        requires
            old(self).wf(),
            old(self).state() == TableState::ExpectCommaAfterEvent,
        ensures
            old(self).stepped(&*final(self), token@, r),
    {
        match token {
            Token::Comma => {
                self.state = TableState::ExpectTargetState;
                Ok(Flow::Continue)
            },
            _ => Err(expected_got_message("Expected comma after event", token)),
        }
    }

    pub fn parseTokenInExpectTargetState(&mut self, token: &Token) -> (r: Result<Flow, String>)
        requires
            old(self).wf(),
            old(self).state() == TableState::ExpectTargetState,
        ensures
            old(self).stepped(&*final(self), token@, r),
    {
        match token {
            Token::Identifier(name) => {
                let mut row = self.takeLastRow();
                row.target = name.clone();
                self.putLastRow(row);
                proof {
                    assert(self.rows() =~= with_target(old(self).rows(), name@));
                }
                self.state = TableState::AfterTargetState;
                Ok(Flow::Continue)
            },
            _ => Err(expected_got_message("Expected target state", token)),
        }
    }

    pub fn parseTokenInAfterTargetState(&mut self, token: &Token) -> (r: Result<Flow, String>)
        requires
            old(self).wf(),
            old(self).state() == TableState::AfterTargetState,
        ensures
            old(self).stepped(&*final(self), token@, r),
    {
        match token {
            Token::Comma => {
                let last = self.rows.len() - 1;
                assert(self.rows()[last as int] == self.rows@[last as int]@);
                match self.rows[last].kind {
                    RowKind::WithGuard => self.state = TableState::ExpectGuard,
                    RowKind::Other => self.state = TableState::ExpectAction,
                }
                Ok(Flow::Continue)
            },
            Token::TemplateEnd => {
                self.state = TableState::AfterRowEnd;
                Ok(Flow::Continue)
            },
            _ => Err(
                expected_got_message(
                    "Expected comma or template end symbol after target state",
                    token,
                ),
            ),
        }
    }

    /// Reads the action field with the field parser.
    pub fn parseTokenInExpectAction(&mut self, tokens: &Vec<Token>, cursor: &mut usize) -> (r:
        Result<Flow, String>)
        requires
            old(self).wf(),
            old(self).state() == TableState::ExpectAction,
            *old(cursor) < tokens@.len(),
        ensures
            final(self).wf(),
            match parse_field(action_name(), views(tokens@), *old(cursor) as nat) {
                Ok((o, q)) => {
                    &&& r == Ok::<Flow, String>(Flow::Continue)
                    &&& final(self).state() == TableState::AfterAction
                    &&& final(self).rows() == with_action(old(self).rows(), o)
                    &&& *final(cursor) == q
                },
                Err(m) => {
                    &&& r is Err
                    &&& r->Err_0@ == m
                    &&& final(self).state() == old(self).state()
                    &&& final(self).rows() == old(self).rows()
                },
            },
    {
        let field = RowSectionParser::new("an action");
        match field.parse(tokens, cursor) {
            Ok(text) => {
                let mut row = self.takeLastRow();
                row.action = text;
                self.putLastRow(row);
                proof {
                    assert(self.rows() =~= with_action(old(self).rows(), row.action@));
                }
                self.state = TableState::AfterAction;
                Ok(Flow::Continue)
            },
            Err(e) => Err(e),
        }
    }

    pub fn parseTokenInAfterAction(&mut self, token: &Token) -> (r: Result<Flow, String>)
        requires
            old(self).wf(),
            old(self).state() == TableState::AfterAction,
        ensures
            old(self).stepped(&*final(self), token@, r),
    {
        match token {
            Token::Comma => {
                self.state = TableState::ExpectGuard;
                Ok(Flow::Continue)
            },
            Token::TemplateEnd => {
                self.state = TableState::AfterRowEnd;
                Ok(Flow::Continue)
            },
            _ => Err(expected_got_message("Expected a comma or a template end after action", token)),
        }
    }

    /// Reads the guard field with the field parser.
    pub fn parseTokenInExpectGuard(&mut self, tokens: &Vec<Token>, cursor: &mut usize) -> (r:
        Result<Flow, String>)
        requires
            old(self).wf(),
            old(self).state() == TableState::ExpectGuard,
            *old(cursor) < tokens@.len(),
        ensures
            final(self).wf(),
            match parse_field(guard_name(), views(tokens@), *old(cursor) as nat) {
                Ok((o, q)) => {
                    &&& r == Ok::<Flow, String>(Flow::Continue)
                    &&& final(self).state() == TableState::ExpectRowEnd
                    &&& final(self).rows() == with_guard(old(self).rows(), o)
                    &&& *final(cursor) == q
                },
                Err(m) => {
                    &&& r is Err
                    &&& r->Err_0@ == m
                    &&& final(self).state() == old(self).state()
                    &&& final(self).rows() == old(self).rows()
                },
            },
    {
        let field = RowSectionParser::new("a guard");
        match field.parse(tokens, cursor) {
            Ok(text) => {
                let mut row = self.takeLastRow();
                row.guard = text;
                self.putLastRow(row);
                proof {
                    assert(self.rows() =~= with_guard(old(self).rows(), row.guard@));
                }
                self.state = TableState::ExpectRowEnd;
                Ok(Flow::Continue)
            },
            Err(e) => Err(e),
        }
    }

    pub fn parseTokenInExpectRowEnd(&mut self, token: &Token) -> (r: Result<Flow, String>)
        requires
            old(self).wf(),
            old(self).state() == TableState::ExpectRowEnd,
        ensures
            old(self).stepped(&*final(self), token@, r),
    {
        match token {
            Token::TemplateEnd => {
                self.state = TableState::AfterRowEnd;
                Ok(Flow::Continue)
            },
            _ => Err(expected_got_message("Expected a template end", token)),
        }
    }

    pub fn parseTokenInAfterRowEnd(&mut self, token: &Token) -> (r: Result<Flow, String>)
        requires
            old(self).wf(),
            old(self).state() == TableState::AfterRowEnd,
        ensures
            old(self).stepped(&*final(self), token@, r),
    {
        match token {
            Token::Comma => {
                self.state = TableState::ExpectRowIdentifier;
                Ok(Flow::Continue)
            },
            Token::TemplateEnd => Ok(Flow::Break),
            _ => Err(expected_got_message("Expected a comma or a template end after row", token)),
        }
    }

    /// Takes the row being read out of the list; `putLastRow` puts it back.
    fn takeLastRow(&mut self) -> (r: Row)
        requires
            old(self).rows@.len() > 0,
        ensures
            final(self).rows@ == old(self).rows@.drop_last(),
            r == old(self).rows@.last(),
            final(self).state == old(self).state,
            final(self).rowPattern == old(self).rowPattern,
    {
        self.rows.pop().unwrap()
    }

    fn putLastRow(&mut self, row: Row)
        ensures
            final(self).rows@ == old(self).rows@.push(row),
            final(self).state == old(self).state,
            final(self).rowPattern == old(self).rowPattern,
    {
        self.rows.push(row);
    }
}


/// A row as written in the source: `name<start, event, target, extra...>`,
/// where each extra field is the tokens of an action or guard, a bare
/// identifier or a generic expression.
pub ghost struct SourceRow {
    pub name: Seq<char>,
    pub start: Seq<char>,
    pub event: Seq<char>,
    pub target: Seq<char>,
    pub extra: Seq<Seq<TokenView>>,
}

/// A row identifier with three, four or five fields (a guard row has at most
/// four), whose extra fields the field parser reads completely.
pub open spec fn well_formed_row(r: SourceRow) -> bool {
    &&& is_row_identifier(r.name)
    &&& r.extra.len() <= if row_kind_of(r.name) == RowKind::WithGuard {
        1nat
    } else {
        2nat
    }
    &&& forall|i: int| 0 <= i < r.extra.len() ==> complete_field(#[trigger] r.extra[i])
}

/// The tokens of the row identifier and the three required fields.
pub open spec fn row_head_tokens(r: SourceRow) -> Seq<TokenView> {
    seq![
        TokenView::Identifier(r.name),
        TokenView::TemplateStart,
        TokenView::Identifier(r.start),
        TokenView::Comma,
        TokenView::Identifier(r.event),
        TokenView::Comma,
        TokenView::Identifier(r.target),
    ]
}

/// The tokens of a row.
pub open spec fn row_tokens(r: SourceRow) -> Seq<TokenView> {
    row_head_tokens(r) + if r.extra.len() == 0 {
        seq![]
    } else if r.extra.len() == 1 {
        seq![TokenView::Comma] + r.extra[0]
    } else {
        seq![TokenView::Comma] + r.extra[0] + seq![TokenView::Comma] + r.extra[1]
    } + seq![TokenView::TemplateEnd]
}

/// The tokens of rows separated by commas.
pub open spec fn table_tokens(rows: Seq<SourceRow>) -> Seq<TokenView>
    decreases rows.len(),
{
    if rows.len() == 0 {
        seq![]
    } else if rows.len() == 1 {
        row_tokens(rows[0])
    } else {
        row_tokens(rows[0]) + seq![TokenView::Comma] + table_tokens(rows.drop_first())
    }
}

/// The row that such tokens describe: a guard row's one extra field is its
/// guard; another row's extra fields are its action, then its guard; each as
/// the field parser writes it back.
pub open spec fn source_row(r: SourceRow) -> RowView {
    let kind = row_kind_of(r.name);
    RowView {
        kind,
        start: r.start,
        event: r.event,
        target: r.target,
        action: if kind == RowKind::Other && r.extra.len() >= 1 {
            field_texts(r.extra[0])
        } else {
            seq![]
        },
        guard: if kind == RowKind::WithGuard && r.extra.len() == 1 {
            field_texts(r.extra[0])
        } else if kind == RowKind::Other && r.extra.len() == 2 {
            field_texts(r.extra[1])
        } else {
            seq![]
        },
    }
}

/// The rows that a list of source rows describes.
pub open spec fn source_rows(rows: Seq<SourceRow>) -> Seq<RowView> {
    rows.map_values(|r: SourceRow| source_row(r))
}

/// A complete field read at position `p`, where it is followed by `u`.
proof fn lemma_field_in_table(name: Seq<char>, t: Seq<TokenView>, p: nat, f: Seq<TokenView>)
    requires
        complete_field(f),
        p + f.len() < t.len(),
        t.subrange(p as int, (p + f.len()) as int) == f,
        t[(p + f.len()) as int] is Comma || t[(p + f.len()) as int] is TemplateEnd,
    ensures
        parse_field(name, t, p) == Ok::<(Seq<char>, nat), Seq<char>>(
            (field_texts(f), p + f.len()),
        ),
{
    let u = t[(p + f.len()) as int];
    let w = f.push(u);
    assert(t.subrange(p as int, (p + w.len()) as int) =~= w);
    assert(parse_field(name, w, 0) == Ok::<(Seq<char>, nat), Seq<char>>(
        (field_texts(f), f.len()),
    ));
    lemma_field_run_shift(name, t, w, p, 0, FieldState::ExpectIdentifier, 0, seq![]);
}

proof fn lemma_first_row_after(tokens: Seq<TokenView>, i: nat, p: nat)
    requires
        i <= p < tokens.len(),
        is_row_token(tokens[p as int]),
        forall|k: int| i <= k < p ==> !is_row_token(tokens[k]),
    ensures
        first_row_from(tokens, i) == Some(p),
    decreases p - i,
{
    if i < p {
        lemma_first_row_after(tokens, i + 1, p);
    }
}

/// Reading one well-formed row from its identifier to its closing `>`.
proof fn lemma_source_row_run(t: Seq<TokenView>, p: nat, acc: Seq<RowView>, r: SourceRow)
    requires
        well_formed_row(r),
        p + row_tokens(r).len() <= t.len(),
        t.subrange(p as int, (p + row_tokens(r).len()) as int) == row_tokens(r),
    ensures
        table_run(t, p, TableState::ExpectRowIdentifier, acc) == table_run(
            t,
            p + row_tokens(r).len(),
            TableState::AfterRowEnd,
            acc.push(source_row(r)),
        ),
{
    let row = row_tokens(r);
    let head = row_head_tokens(r);
    let len = row.len();
    assert forall|k: int| 0 <= k < len implies t[(p + k) as int] == row[(k) as int] by {
        assert(t.subrange(p as int, (p + len) as int)[k] == t[(p + k) as int]);
    }
    let w = t.subrange(p as int, (p + len) as int);
    assert(head.len() == 7);
    assert(row[0] == head[0] && w[0] == t[p as int]);
    assert(row[1] == head[1] && w[1] == t[p + 1int]);
    assert(row[2] == head[2] && w[2] == t[p + 2int]);
    assert(row[3] == head[3] && w[3] == t[p + 3int]);
    assert(row[4] == head[4] && w[4] == t[p + 4int]);
    assert(row[5] == head[5] && w[5] == t[p + 5int]);
    assert(row[6] == head[6] && w[6] == t[p + 6int]);
    let kind = row_kind_of(r.name);
    let extra = r.extra;
    let r1 = acc.push(empty_row(kind));
    let r2 = with_start(r1, r.start);
    let r3 = with_event(r2, r.event);
    let r4 = with_target(r3, r.target);
    assert(table_run(t, p, TableState::ExpectRowIdentifier, acc) == table_run(
        t,
        p + 1,
        TableState::ExpectRowTemplateStart,
        r1,
    ));
    assert(table_run(t, p + 1, TableState::ExpectRowTemplateStart, r1) == table_run(
        t,
        p + 2,
        TableState::ExpectStartState,
        r1,
    ));
    assert(table_run(t, p + 2, TableState::ExpectStartState, r1) == table_run(
        t,
        p + 3,
        TableState::ExpectCommaAfterStartState,
        r2,
    ));
    assert(table_run(t, p + 3, TableState::ExpectCommaAfterStartState, r2) == table_run(
        t,
        p + 4,
        TableState::ExpectEvent,
        r2,
    ));
    assert(table_run(t, p + 4, TableState::ExpectEvent, r2) == table_run(
        t,
        p + 5,
        TableState::ExpectCommaAfterEvent,
        r3,
    ));
    assert(table_run(t, p + 5, TableState::ExpectCommaAfterEvent, r3) == table_run(
        t,
        p + 6,
        TableState::ExpectTargetState,
        r3,
    ));
    assert(table_run(t, p + 6, TableState::ExpectTargetState, r3) == table_run(
        t,
        p + 7,
        TableState::AfterTargetState,
        r4,
    ));
    if extra.len() == 0 {
        assert(row == head + seq![TokenView::TemplateEnd]);
        assert(w[7] == t[p + 7int]);
        assert(t[p + 7int] == TokenView::TemplateEnd);
        assert(r4 =~= acc.push(source_row(r)));
    } else if extra.len() == 1 {
        let e0 = extra[0];
        assert(complete_field(e0));
        let l0 = e0.len();
        assert(row == head + (seq![TokenView::Comma] + e0) + seq![TokenView::TemplateEnd]);
        assert(w[7] == t[p + 7int]);
        assert(t[p + 7int] == TokenView::Comma);
        assert(t.subrange((p + 8) as int, (p + 8 + l0) as int) =~= row.subrange(8, (8 + l0) as int));
        assert(row.subrange(8, (8 + l0) as int) =~= e0);
        assert(t[(p + 8 + l0) as int] == row[(8 + l0) as int]);
        assert(t[(p + 8 + l0) as int] == TokenView::TemplateEnd);
        let q = (p + 8 + l0) as nat;
        if kind == RowKind::WithGuard {
            lemma_field_in_table(guard_name(), t, p + 8, e0);
            let r5 = with_guard(r4, field_texts(e0));
            assert(r5 =~= acc.push(source_row(r)));
            assert(table_run(t, p + 7, TableState::AfterTargetState, r4) == table_run(
                t,
                p + 8,
                TableState::ExpectGuard,
                r4,
            ));
            assert(table_run(t, p + 8, TableState::ExpectGuard, r4) == table_run(
                t,
                q,
                TableState::ExpectRowEnd,
                r5,
            ));
            assert(table_run(t, q, TableState::ExpectRowEnd, r5) == table_run(
                t,
                q + 1,
                TableState::AfterRowEnd,
                r5,
            ));
        } else {
            lemma_field_in_table(action_name(), t, p + 8, e0);
            let r5 = with_action(r4, field_texts(e0));
            assert(r5 =~= acc.push(source_row(r)));
            assert(table_run(t, p + 7, TableState::AfterTargetState, r4) == table_run(
                t,
                p + 8,
                TableState::ExpectAction,
                r4,
            ));
            assert(table_run(t, p + 8, TableState::ExpectAction, r4) == table_run(
                t,
                q,
                TableState::AfterAction,
                r5,
            ));
            assert(table_run(t, q, TableState::AfterAction, r5) == table_run(
                t,
                q + 1,
                TableState::AfterRowEnd,
                r5,
            ));
        }
    } else {
        let e0 = extra[0];
        let e1 = extra[1];
        assert(complete_field(e0));
        assert(complete_field(e1));
        let l0 = e0.len();
        let l1 = e1.len();
        assert(row == head + (seq![TokenView::Comma] + e0 + seq![TokenView::Comma] + e1) + seq![
            TokenView::TemplateEnd,
        ]);
        assert(w[7] == t[p + 7int]);
        assert(t[p + 7int] == TokenView::Comma);
        assert(t.subrange((p + 8) as int, (p + 8 + l0) as int) =~= row.subrange(8, (8 + l0) as int));
        assert(row.subrange(8, (8 + l0) as int) =~= e0);
        assert(t[(p + 8 + l0) as int] == row[(8 + l0) as int]);
        assert(t[(p + 8 + l0) as int] == TokenView::Comma);
        let q0 = (p + 8 + l0) as nat;
        assert(t.subrange((q0 + 1) as int, (q0 + 1 + l1) as int) =~= row.subrange((9 + l0) as int, (9 + l0 + l1) as int));
        assert(row.subrange((9 + l0) as int, (9 + l0 + l1) as int) =~= e1);
        assert(t[(q0 + 1 + l1) as int] == row[(9 + l0 + l1) as int]);
        assert(t[(q0 + 1 + l1) as int] == TokenView::TemplateEnd);
        let q1 = (q0 + 1 + l1) as nat;
        lemma_field_in_table(action_name(), t, p + 8, e0);
        lemma_field_in_table(guard_name(), t, q0 + 1, e1);
        let r5 = with_action(r4, field_texts(e0));
        let r6 = with_guard(r5, field_texts(e1));
        assert(r6 =~= acc.push(source_row(r)));
        assert(table_run(t, p + 7, TableState::AfterTargetState, r4) == table_run(
            t,
            p + 8,
            TableState::ExpectAction,
            r4,
        ));
        assert(table_run(t, p + 8, TableState::ExpectAction, r4) == table_run(
            t,
            q0,
            TableState::AfterAction,
            r5,
        ));
        assert(table_run(t, q0, TableState::AfterAction, r5) == table_run(
            t,
            q0 + 1,
            TableState::ExpectGuard,
            r5,
        ));
        assert(table_run(t, q0 + 1, TableState::ExpectGuard, r5) == table_run(
            t,
            q1,
            TableState::ExpectRowEnd,
            r6,
        ));
        assert(table_run(t, q1, TableState::ExpectRowEnd, r6) == table_run(
            t,
            q1 + 1,
            TableState::AfterRowEnd,
            r6,
        ));
    }
}

/// Reading well-formed rows separated by commas, up to the last row's `>`.
proof fn lemma_source_table_run(t: Seq<TokenView>, p: nat, acc: Seq<RowView>, rows: Seq<SourceRow>)
    requires
        rows.len() >= 1,
        forall|i: int| 0 <= i < rows.len() ==> well_formed_row(#[trigger] rows[i]),
        p + table_tokens(rows).len() <= t.len(),
        t.subrange(p as int, (p + table_tokens(rows).len()) as int) == table_tokens(rows),
    ensures
        table_run(t, p, TableState::ExpectRowIdentifier, acc) == table_run(
            t,
            p + table_tokens(rows).len(),
            TableState::AfterRowEnd,
            acc + source_rows(rows),
        ),
    decreases rows.len(),
{
    let r0 = rows[0];
    let a = row_tokens(r0);
    let all = table_tokens(rows);
    assert(well_formed_row(r0));
    assert(t.subrange(p as int, (p + a.len()) as int) =~= all.subrange(0, a.len() as int));
    assert(all.subrange(0, a.len() as int) =~= a);
    lemma_source_row_run(t, p, acc, r0);
    let acc1 = acc.push(source_row(r0));
    if rows.len() == 1 {
        assert(acc + source_rows(rows) =~= acc1);
    } else {
        let rest = rows.drop_first();
        let b = table_tokens(rest);
        let q = p + a.len() + 1;
        assert(all == a + seq![TokenView::Comma] + b);
        assert(t[p + a.len() as int] == all[a.len() as int]);
        assert(t[p + a.len() as int] == TokenView::Comma);
        assert(t.subrange(q as int, (q + b.len()) as int) =~= all.subrange(
            a.len() + 1int,
            all.len() as int,
        ));
        assert(all.subrange((a.len() + 1) as int, all.len() as int) =~= b);
        assert forall|i: int| 0 <= i < rest.len() implies well_formed_row(#[trigger] rest[i]) by {
            assert(rest[i] == rows[i + 1]);
        }
        assert(table_run(t, p + a.len(), TableState::AfterRowEnd, acc1) == table_run(
            t,
            q,
            TableState::ExpectRowIdentifier,
            acc1,
        ));
        lemma_source_table_run(t, q, acc1, rest);
        assert(acc1 + source_rows(rest) =~= acc + source_rows(rows));
    }
}

proof fn lemma_source_table_start(prefix: Seq<TokenView>, rows: Seq<SourceRow>, t: Seq<TokenView>)
    requires
        rows.len() >= 1,
        well_formed_row(rows[0]),
        forall|k: int| 0 <= k < prefix.len() ==> !is_row_token(prefix[k]),
        prefix.len() + table_tokens(rows).len() <= t.len(),
        t.subrange(0, prefix.len() as int) == prefix,
        t.subrange(prefix.len() as int, (prefix.len() + table_tokens(rows).len()) as int) == table_tokens(
            rows,
        ),
    ensures
        first_row_from(t, 0) == Some(prefix.len()),
{
    let p = prefix.len();
    let all = table_tokens(rows);
    assert(all[0] == row_tokens(rows[0])[0]);
    assert(row_tokens(rows[0])[0] == row_head_tokens(rows[0])[0]);
    assert(t[p as int] == t.subrange(p as int, (p + all.len()) as int)[0]);
    assert forall|k: int| 0 <= k < p implies !is_row_token(t[(k) as int]) by {
        assert(t[(k) as int] == t.subrange(0, p as int)[k]);
    }
    lemma_first_row_after(t, 0, p);
}

/// A table of well-formed rows, each with three, four or five fields and
/// separated by commas, after tokens that hold no row identifier, parses to
/// one row for each, in order. A row's kind is `WithGuard` exactly when its
/// identifier is the guard row identifier, and its action and guard are
/// filled exactly when the source gives them, as the field parser rebuilds them.
pub proof fn lemma_table_kinds_and_fields(prefix: Seq<TokenView>, rows: Seq<SourceRow>)
    requires
        forall|k: int| 0 <= k < prefix.len() ==> !is_row_token(prefix[k]),
        rows.len() >= 1,
        forall|i: int| 0 <= i < rows.len() ==> well_formed_row(#[trigger] rows[i]),
    ensures
        parse_table(prefix + table_tokens(rows) + seq![TokenView::TemplateEnd]) == Ok::<
            Seq<RowView>,
            Seq<char>,
        >(source_rows(rows)),
        source_rows(rows).len() == rows.len(),
        forall|i: int|
            0 <= i < rows.len() ==> (#[trigger] source_rows(rows)[i].kind == RowKind::WithGuard
                <==> rows[i].name == guard_row_identifier()),
{
    let all = table_tokens(rows);
    let t = prefix + all + seq![TokenView::TemplateEnd];
    let p = prefix.len();
    assert(t.subrange(0, p as int) =~= prefix);
    assert(t.subrange(p as int, (p + all.len()) as int) =~= all);
    assert(well_formed_row(rows[0]));
    lemma_source_table_start(prefix, rows, t);
    lemma_source_table_run(t, p, seq![], rows);
    assert(t[p + all.len() as int] == TokenView::TemplateEnd);
    assert(Seq::<RowView>::empty() + source_rows(rows) =~= source_rows(rows));
}

/// A table whose rows are well-formed up to a comma, after which comes an
/// identifier that is not a row identifier, fails on that identifier, and
/// no row is returned.
pub proof fn lemma_malformed_row_fails(
    prefix: Seq<TokenView>,
    rows: Seq<SourceRow>,
    name: Seq<char>,
    rest: Seq<TokenView>,
)
    requires
        forall|k: int| 0 <= k < prefix.len() ==> !is_row_token(prefix[k]),
        rows.len() >= 1,
        forall|i: int| 0 <= i < rows.len() ==> well_formed_row(#[trigger] rows[i]),
        !is_row_identifier(name),
    ensures
        parse_table(
            prefix + table_tokens(rows) + seq![TokenView::Comma, TokenView::Identifier(name)]
                + rest,
        ) == Err::<Seq<RowView>, Seq<char>>(
            expected_got("Expected row identifier"@, TokenView::Identifier(name)),
        ),
{
    let all = table_tokens(rows);
    let t = prefix + all + seq![TokenView::Comma, TokenView::Identifier(name)] + rest;
    let p = prefix.len();
    let e = p + all.len();
    assert(t.subrange(0, p as int) =~= prefix);
    assert(t.subrange(p as int, e as int) =~= all);
    assert(well_formed_row(rows[0]));
    lemma_source_table_start(prefix, rows, t);
    lemma_source_table_run(t, p, seq![], rows);
    assert(t[e as int] == TokenView::Comma);
    assert(t[e + 1int] == TokenView::Identifier(name));
    let acc = Seq::<RowView>::empty() + source_rows(rows);
    assert(table_run(t, e, TableState::AfterRowEnd, acc) == table_run(
        t,
        e + 1,
        TableState::ExpectRowIdentifier,
        acc,
    ));
}

/// How far the row being read has been filled in a state: its start state,
/// event and target state are non-empty once read.
pub open spec fn row_filled_for(state: TableState, row: RowView) -> bool {
    match state {
        TableState::ExpectRowIdentifier | TableState::ExpectRowTemplateStart
        | TableState::ExpectStartState => true,
        TableState::ExpectCommaAfterStartState | TableState::ExpectEvent => row.start.len() > 0,
        TableState::ExpectCommaAfterEvent | TableState::ExpectTargetState => row.start.len() > 0
            && row.event.len() > 0,
        _ => row.start.len() > 0 && row.event.len() > 0 && row.target.len() > 0,
    }
}

/// Every finished row has a non-empty start state, event and target state.
pub open spec fn rows_filled(rows: Seq<RowView>) -> bool {
    forall|k: int|
        0 <= k < rows.len() ==> #[trigger] rows[k].start.len() > 0 && rows[k].event.len() > 0
            && rows[k].target.len() > 0
}

/// No identifier among the tokens is empty.
pub open spec fn identifiers_nonempty(tokens: Seq<TokenView>) -> bool {
    forall|k: int|
        0 <= k < tokens.len() && #[trigger] tokens[k] is Identifier ==> tokens[k]->Identifier_0.len()
            > 0
}

proof fn lemma_table_run_filled(
    tokens: Seq<TokenView>,
    pos: nat,
    state: TableState,
    rows: Seq<RowView>,
)
    requires
        identifiers_nonempty(tokens),
        state != TableState::ExpectRowIdentifier ==> rows.len() > 0,
        state != TableState::ExpectRowIdentifier ==> rows_filled(rows.drop_last()) && row_filled_for(
            state,
            rows.last(),
        ),
        state == TableState::ExpectRowIdentifier ==> rows_filled(rows),
    ensures
        table_run(tokens, pos, state, rows) matches Ok(rs) ==> rows_filled(rs),
    decreases tokens.len() - pos,
{
    if pos < tokens.len() {
        lemma_table_advance_moves(tokens, pos, state, rows);
        let t = tokens[pos as int];
        match table_advance(tokens, pos, state, rows) {
            TableMove::Advance(s, rs, q) => {
                if s == TableState::ExpectRowIdentifier {
                    assert(rs == rows);
                    assert(rows_filled(rs)) by {
                        assert forall|k: int| 0 <= k < rs.len() implies #[trigger] rs[k].start.len()
                            > 0 && rs[k].event.len() > 0 && rs[k].target.len() > 0 by {
                            if k < rows.len() - 1 {
                                assert(rows.drop_last()[k] == rows[k]);
                            }
                        }
                    }
                } else {
                    assert(rs.len() > 0);
                    assert(rs.drop_last() =~= if state == TableState::ExpectRowIdentifier {
                        rows
                    } else {
                        rows.drop_last()
                    });
                }
                lemma_table_run_filled(tokens, q, s, rs);
            },
            TableMove::Done(rs) => {
                assert(state == TableState::AfterRowEnd && rs == rows);
                assert(rows_filled(rs)) by {
                    assert forall|k: int| 0 <= k < rs.len() implies #[trigger] rs[k].start.len() > 0
                        && rs[k].event.len() > 0 && rs[k].target.len() > 0 by {
                        if k < rows.len() - 1 {
                            assert(rows.drop_last()[k] == rows[k]);
                        } else {
                            assert(rs[k] == rows.last());
                        }
                    }
                }
            },
            TableMove::Fail(_) => {},
        }
    }
}

/// Rows read from tokenized text are complete: each has a non-empty start
/// state, event and target state.
pub proof fn lemma_tokenized_rows_filled(text: Seq<char>)
    ensures
        parse_table(lex(text)) matches Ok(rows) ==> rows_filled(rows),
{
    let tokens = lex(text);
    lemma_lex_identifiers_lexable(text);
    assert(identifiers_nonempty(tokens));
    match first_row_from(tokens, 0) {
        Some(i) => {
            lemma_table_run_filled(tokens, i, TableState::ExpectRowIdentifier, seq![]);
        },
        None => {},
    }
}


proof fn lemma_table_run_message(
    tokens: Seq<TokenView>,
    pos: nat,
    state: TableState,
    rows: Seq<RowView>,
)
    ensures
        table_run(tokens, pos, state, rows) matches Err(m) ==> m.len() > 0 && m[0] != 'R',
    decreases tokens.len() - pos,
{
    reveal_strlit("Expected a comma or a template end after action");
    reveal_strlit("Expected a comma or a template end after row");
    reveal_strlit("Expected a template end");
    reveal_strlit("Expected comma after event");
    reveal_strlit("Expected comma after start state");
    reveal_strlit("Expected comma or template end symbol after target state");
    reveal_strlit("Expected event");
    reveal_strlit("Expected row identifier");
    reveal_strlit("Expected row template start");
    reveal_strlit("Expected start state");
    reveal_strlit("Expected target state");
    reveal_strlit("Tokens ended before the transition table was closed.");
    if pos < tokens.len() {
        lemma_table_advance_moves(tokens, pos, state, rows);
        lemma_field_run_message(action_name(), tokens, pos, FieldState::ExpectIdentifier, 0, seq![]);
        lemma_field_run_message(guard_name(), tokens, pos, FieldState::ExpectIdentifier, 0, seq![]);
        match table_advance(tokens, pos, state, rows) {
            TableMove::Advance(s, rs, q) => {
                lemma_table_run_message(tokens, q, s, rs);
            },
            _ => {},
        }
    }
}

proof fn lemma_no_row_from(tokens: Seq<TokenView>, i: nat)
    ensures
        first_row_from(tokens, i) is None <==> forall|k: int|
            i <= k < tokens.len() ==> !is_row_token(#[trigger] tokens[k]),
    decreases tokens.len() - i,
{
    if i < tokens.len() {
        lemma_no_row_from(tokens, i + 1);
    }
}

/// A table fails with the rows-not-found diagnostic exactly when none of its
/// tokens is a row identifier.
pub proof fn lemma_rows_not_found_iff(tokens: Seq<TokenView>)
    ensures
        parse_table(tokens) == Err::<Seq<RowView>, Seq<char>>(rows_not_found()) <==> forall|k: int|
            0 <= k < tokens.len() ==> !is_row_token(#[trigger] tokens[k]),
{
    reveal_strlit("Rows were not found in the transition table.");
    lemma_no_row_from(tokens, 0);
    if let Some(i) = first_row_from(tokens, 0) {
        lemma_table_run_message(tokens, i, TableState::ExpectRowIdentifier, seq![]);
    }
}

} // verus!
