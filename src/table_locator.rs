//! Finding the line where the transition table is declared.
use crate::pattern::{regex_compiles, regex_finds, TextPattern};
use crate::text::char_vec;
use vstd::prelude::*;

verus! {

/// The regular expression of the declaration line: optional leading
/// whitespace, then `struct transition_table` as a whole word.
pub open spec fn table_declaration_pattern() -> Seq<char> {
    "^\\s*struct transition_table\\b"@
}

/// The diagnostic when the declaration pattern cannot be compiled.
pub open spec fn declaration_pattern_refused() -> Seq<char> {
    "The transition table pattern could not be compiled."@
}

/// The end of the line that starts at `s`: the position of the next line
/// break, or the end of the text.
pub open spec fn line_end(text: Seq<char>, s: nat) -> nat
    decreases text.len() - s,
{
    if s >= text.len() {
        s
    } else if text[s as int] == '\n' {
        s
    } else {
        line_end(text, s + 1)
    }
}

pub proof fn lemma_line_end(text: Seq<char>, s: nat)
    requires
        s <= text.len(),
    ensures
        s <= line_end(text, s) <= text.len(),
        line_end(text, s) < text.len() ==> text[line_end(text, s) as int] == '\n',
        forall|k: int| s <= k < line_end(text, s) ==> text[k] != '\n',
    decreases text.len() - s,
{
    if s < text.len() && text[s as int] != '\n' {
        lemma_line_end(text, s + 1);
    }
}

/// The start of the first line, among those that start at or after `s`,
/// that declares the table.
pub open spec fn table_line_from(text: Seq<char>, s: nat) -> Option<nat>
    decreases text.len() + 1 - s,
{
    if s >= text.len() {
        None
    } else {
        proof {
            lemma_line_end(text, s);
        }
        if regex_finds(
            table_declaration_pattern(),
            text.subrange(s as int, line_end(text, s) as int),
        ) {
            Some(s)
        } else {
            table_line_from(text, line_end(text, s) + 1)
        }
    }
}

pub proof fn lemma_table_line_in_text(text: Seq<char>, s: nat)
    ensures
        table_line_from(text, s) matches Some(k) ==> s <= k < text.len(),
    decreases text.len() + 1 - s,
{
    if s < text.len() {
        lemma_line_end(text, s);
        lemma_table_line_in_text(text, line_end(text, s) + 1);
    }
}

pub proof fn lemma_find_table_in_text(text: Seq<char>)
    ensures
        find_table(text) matches Some(k) ==> k < text.len(),
{
    lemma_table_line_in_text(text, 0);
}

/// Where the table is declared: the position, in characters, of the start of
/// the first line that the declaration pattern matches.
pub open spec fn find_table(text: Seq<char>) -> Option<nat> {
    table_line_from(text, 0)
}

/// The position, in characters, of the start of the line that declares the
/// transition table, if any line does; the diagnostic when the declaration
/// pattern cannot be compiled.
pub fn findStartOfTransitionTable(text: &str) -> (r: Result<Option<usize>, String>)
    ensures
        regex_compiles(table_declaration_pattern()) ==> match r {
            Ok(Some(s)) => find_table(text@) == Some(s as nat),
            Ok(None) => find_table(text@) is None,
            Err(_) => false,
        },
        !regex_compiles(table_declaration_pattern()) ==> r is Err && r->Err_0@
            == declaration_pattern_refused(),
{
    match TextPattern::compile("^\\s*struct transition_table\\b") {
        Ok(pattern) => {
            let chars = char_vec(text);
            Ok(findTableLine(&pattern, &chars))
        },
        Err(_) => Err("The transition table pattern could not be compiled.".to_owned()),
    }
}

/// The start of the first line of `chars` that `pattern` matches.
pub fn findTableLine(pattern: &TextPattern, chars: &Vec<char>) -> (r: Option<usize>)
    requires
        pattern.source() == table_declaration_pattern(),
    ensures
        match r {
            Some(s) => find_table(chars@) == Some(s as nat),
            None => find_table(chars@) is None,
        },
{
    let n = chars.len();
    let mut start: usize = 0;
    while start < n
        invariant
            n == chars@.len(),
            pattern.source() == table_declaration_pattern(),
            find_table(chars@) == table_line_from(chars@, start as nat),
        decreases n - start,
    {
        let mut line = String::new();
        let mut end = start;
        proof {
            lemma_line_end(chars@, start as nat);
        }
        while end < n && chars[end] != '\n'
            invariant
                n == chars@.len(),
                start <= end <= line_end(chars@, start as nat),
                line_end(chars@, start as nat) <= n,
                line_end(chars@, start as nat) < n ==> chars@[line_end(chars@, start as nat) as int] == '\n',
                line@ == chars@.subrange(start as int, end as int),
            decreases n - end,
        {
            line.push(chars[end]);
            assert(line@ =~= chars@.subrange(start as int, end + 1));
            end = end + 1;
        }
        assert(end == line_end(chars@, start as nat));
        if pattern.is_match(line.as_str()) {
            return Some(start);
        }
        if end >= n {
            assert(table_line_from(chars@, (end + 1) as nat) is None);
            return None;
        }
        start = end + 1;
    }
    None
}

} // verus!
