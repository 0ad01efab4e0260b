//! The record of one transition.
use vstd::prelude::*;

verus! {

/// Whether a row's optional fields are a guard alone, or an action then a guard.
#[derive(Debug, PartialEq, Eq, Structural, Clone, Copy)]
pub enum RowKind {
    WithGuard,
    Other,
}

/// One transition of the table.
#[derive(Debug, PartialEq, Eq)]
pub struct Row {
    pub kind: RowKind,
    pub start: String,
    pub event: String,
    pub target: String,
    pub action: String,
    pub guard: String,
}

/// A row with its texts as characters.
pub ghost struct RowView {
    pub kind: RowKind,
    pub start: Seq<char>,
    pub event: Seq<char>,
    pub target: Seq<char>,
    pub action: Seq<char>,
    pub guard: Seq<char>,
}

impl View for Row {
    type V = RowView;

    open spec fn view(&self) -> RowView {
        RowView {
            kind: self.kind,
            start: self.start@,
            event: self.event@,
            target: self.target@,
            action: self.action@,
            guard: self.guard@,
        }
    }
}

/// The views of a sequence of rows.
pub open spec fn row_views(rows: Seq<Row>) -> Seq<RowView> {
    rows.map_values(|r: Row| r@)
}

/// A row of the given kind whose fields are all empty.
pub open spec fn empty_row(kind: RowKind) -> RowView {
    RowView { kind, start: seq![], event: seq![], target: seq![], action: seq![], guard: seq![] }
}

impl Row {
    pub fn new(kind: RowKind) -> (r: Self)
        ensures
            r@ == empty_row(kind),
    {
        Row {
            kind,
            start: String::new(),
            event: String::new(),
            target: String::new(),
            action: String::new(),
            guard: String::new(),
        }
    }
}

} // verus!
