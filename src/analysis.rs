//! From the text of a source file to the diagram of its transition table.
use crate::diagram::{diagram, renderDiagram};
use crate::character_reader::CharacterReader;
use crate::pattern::regex_compiles;
use crate::table_locator::{
    declaration_pattern_refused, find_table, findStartOfTransitionTable, table_declaration_pattern,
};
use crate::text::{decimal, decimal_text, joined};
use crate::token::views;
use crate::transition_table_lexer::{lex, lexTransitionTable};
use crate::transition_table_parser::{
    lemma_parsed_table_has_rows, parse_table, parseTransitionTable, pattern_refused, row_pattern,
};
use vstd::prelude::*;
use vstd::string::*;

verus! {

/// The diagnostic when no line declares the table.
pub open spec fn table_not_found() -> Seq<char> {
    "Transition table was not found."@
}

/// The diagram of the table that `text` declares, or the first diagnostic.
pub open spec fn diagram_of(text: Seq<char>) -> Result<Seq<char>, Seq<char>> {
    match find_table(text) {
        None => Err(table_not_found()),
        Some(s) => match parse_table(lex(text.subrange(s as int, text.len() as int))) {
            Ok(rows) => Ok(diagram(rows)),
            Err(m) => Err(m),
        },
    }
}

/// Draws the diagram of the transition table that `text` declares.
///
/// The result is `diagram_of(text)` when the `regex` crate accepts both
/// patterns; otherwise the diagnostic names the pattern it refused.
pub fn transitionDiagram(text: &str) -> (r: Result<String, String>)
    ensures
        regex_compiles(table_declaration_pattern()) && regex_compiles(row_pattern()) ==> match r {
            Ok(d) => diagram_of(text@) == Ok::<Seq<char>, Seq<char>>(d@),
            Err(m) => diagram_of(text@) == Err::<Seq<char>, Seq<char>>(m@),
        },
        !regex_compiles(table_declaration_pattern()) ==> r is Err && r->Err_0@
            == declaration_pattern_refused(),
        regex_compiles(table_declaration_pattern()) && find_table(text@) is None ==> r is Err
            && r->Err_0@ == table_not_found(),
        regex_compiles(table_declaration_pattern()) && find_table(text@) is Some
            && !regex_compiles(row_pattern()) ==> r is Err && r->Err_0@ == pattern_refused(),
{
    let start = match findStartOfTransitionTable(text) {
        Ok(Some(start)) => start,
        Ok(None) => {
            return Err("Transition table was not found.".to_owned());
        },
        Err(m) => {
            return Err(m);
        },
    };
    let n = text.unicode_len();
    proof {
        crate::table_locator::lemma_find_table_in_text(text@);
    }
    let table = text.substring_char(start, n);
    let tokens = lexTransitionTable(CharacterReader::new(table));
    assert(table@ =~= table@.subrange(0, table@.len() as int));
    match parseTransitionTable(&tokens) {
        Ok(rows) => {
            proof {
                lemma_parsed_table_has_rows(views(tokens@));
            }
            Ok(renderDiagram(&rows))
        },
        Err(m) => Err(m),
    }
}

/// The diagnostic when no argument at all is given.
pub open spec fn no_arguments() -> Seq<char> {
    "Unexpected no arguments passed to program."@
}

/// The diagnostic when no file path is given.
pub open spec fn missing_path() -> Seq<char> {
    "Please provide a path to a file to analyze."@
}

/// The diagnostic when more than one file path is given.
pub open spec fn too_many_arguments(extra: nat) -> Seq<char> {
    "Too many arguments passed to program, expected only one with a file path, got "@ + decimal(
        extra,
    )
}

/// The file path among a program's arguments (the program's own name first):
/// exactly one path is expected.
pub fn filePathArgument(args: &Vec<String>) -> (r: Result<String, String>)
    ensures
        args@.len() == 0 ==> r is Err && r->Err_0@ == no_arguments(),
        args@.len() == 1 ==> r is Err && r->Err_0@ == missing_path(),
        args@.len() == 2 ==> r is Ok && r->Ok_0@ == args@[1]@,
        args@.len() > 2 ==> r is Err && r->Err_0@ == too_many_arguments((args@.len() - 1) as nat),
{
    let n = args.len();
    if n == 0 {
        Err("Unexpected no arguments passed to program.".to_owned())
    } else if n == 1 {
        Err("Please provide a path to a file to analyze.".to_owned())
    } else if n == 2 {
        Ok(args[1].clone())
    } else {
        let count = decimal_text(n - 1);
        Err(
            joined(
                "Too many arguments passed to program, expected only one with a file path, got ",
                count.as_str(),
            ),
        )
    }
}

} // verus!
