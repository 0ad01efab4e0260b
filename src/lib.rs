//! Extraction of a state-transition table written as a list of generic
//! instantiations (`_row<Start, Event, Target, Action, Guard>`) and its
//! rendering as a state diagram.
#![allow(non_snake_case)]

pub mod character_reader;
pub mod text;
pub mod token;
pub mod flow;
pub mod transition_table_lexer;
pub mod row;
pub mod row_section_parser;
pub mod pattern;
pub mod transition_table_parser;
pub mod diagram;
pub mod table_locator;
pub mod analysis;
