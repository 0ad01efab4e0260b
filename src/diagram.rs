//! The state diagram drawn from the rows of a table.
use crate::row::{row_views, Row, RowView};
use crate::text::{joined, same_text};
use vstd::prelude::*;
use vstd::string::*;

verus! {

/// Names that stand for "nothing" and are left out of the diagram.
pub open spec fn should_be_shown(name: Seq<char>) -> bool {
    !(name == ""@ || name == "None"@ || name == "none"@ || name == "front::none"@ || name
        == "msm::front::none"@ || name == "boost::msm::front::none"@)
}

pub fn shouldBeShown(name: &str) -> (r: bool)
    ensures
        r == should_be_shown(name@),
{
    !(same_text(name, "") || same_text(name, "None") || same_text(name, "none") || same_text(
        name,
        "front::none",
    ) || same_text(name, "msm::front::none") || same_text(name, "boost::msm::front::none"))
}

/// What separates a transition from its annotations.
pub open spec fn transition_prefix() -> Seq<char> {
    " : "@
}

/// What separates two annotations: a backslash and an `n`, which the diagram
/// tool reads as a line break.
pub open spec fn annotation_separator() -> Seq<char> {
    "\\n"@
}

/// The annotations of a row, in the order event, guard, action; a field that
/// is not shown has none.
pub open spec fn annotations(row: RowView) -> Seq<Seq<char>> {
    (if should_be_shown(row.event) {
        seq!["on "@ + row.event]
    } else {
        seq![]
    }) + (if should_be_shown(row.guard) {
        seq!["if "@ + row.guard]
    } else {
        seq![]
    }) + (if should_be_shown(row.action) {
        seq!["do "@ + row.action]
    } else {
        seq![]
    })
}

/// Texts joined by the annotation separator.
pub open spec fn join_annotations(parts: Seq<Seq<char>>) -> Seq<char>
    decreases parts.len(),
{
    if parts.len() == 0 {
        seq![]
    } else if parts.len() == 1 {
        parts[0]
    } else {
        join_annotations(parts.drop_last()) + annotation_separator() + parts.last()
    }
}

/// The annotation text of a transition, when it has any annotation.
pub open spec fn transition_text(row: RowView) -> Option<Seq<char>> {
    if annotations(row).len() == 0 {
        None
    } else {
        Some(transition_prefix() + join_annotations(annotations(row)))
    }
}

/// Adds the separator unless the text holds only the prefix.
pub fn addNewLineIfNeeded(text: &mut String)
    ensures
        final(text)@ == if old(text)@ == transition_prefix() {
            old(text)@
        } else {
            old(text)@ + annotation_separator()
        },
{
    if !same_text(text.as_str(), " : ") {
        text.append("\\n");
    }
}

/// Adds one annotation to a text that holds the prefix and `parts`.
fn addAnnotation(text: &mut String, label: &str, name: &str, parts: Ghost<Seq<Seq<char>>>)
    requires
        old(text)@ == transition_prefix() + join_annotations(parts@),
        parts@.len() > 0 ==> parts@.last().len() > 0,
        label@.len() > 0,
    ensures
        final(text)@ == transition_prefix() + join_annotations(parts@.push(label@ + name@)),
{
    proof {
        reveal_strlit(" : ");
        let p = parts@.push(label@ + name@);
        assert(p.drop_last() =~= parts@);
        if parts@.len() > 0 {
            lemma_join_annotations_nonempty(parts@);
        } else {
            assert(old(text)@ =~= transition_prefix());
        }
    }
    addNewLineIfNeeded(text);
    text.append(label);
    text.append(name);
    proof {
        let p = parts@.push(label@ + name@);
        assert(final(text)@ =~= transition_prefix() + join_annotations(p));
    }
}

/// Annotations joined are at least as long as their last one.
proof fn lemma_join_annotations_nonempty(parts: Seq<Seq<char>>)
    requires
        parts.len() > 0,
        parts.last().len() > 0,
    ensures
        join_annotations(parts).len() > 0,
{
}

/// The annotation text of a row, or `None` when no field is shown.
pub fn makeTransitionText(row: &Row) -> (r: Option<String>)
    ensures
        match transition_text(row@) {
            Some(t) => r matches Some(s) && s@ == t,
            None => r is None,
        },
{
    let mut text = " : ".to_owned();
    let ghost mut parts: Seq<Seq<char>> = seq![];
    proof {
        reveal_strlit("on ");
        reveal_strlit("if ");
        reveal_strlit("do ");
        assert(text@ =~= transition_prefix() + join_annotations(parts));
    }
    if shouldBeShown(row.event.as_str()) {
        addAnnotation(&mut text, "on ", row.event.as_str(), Ghost(parts));
        proof {
            parts = parts.push("on "@ + row.event@);
        }
    }
    if shouldBeShown(row.guard.as_str()) {
        addAnnotation(&mut text, "if ", row.guard.as_str(), Ghost(parts));
        proof {
            parts = parts.push("if "@ + row.guard@);
        }
    }
    if shouldBeShown(row.action.as_str()) {
        addAnnotation(&mut text, "do ", row.action.as_str(), Ghost(parts));
        proof {
            parts = parts.push("do "@ + row.action@);
        }
    }
    proof {
        assert(parts =~= annotations(row@));
        reveal_strlit(" : ");
        if parts.len() > 0 {
            assert(parts.last().len() > 0);
            lemma_join_annotations_nonempty(parts);
        }
    }
    if same_text(text.as_str(), " : ") {
        None
    } else {
        Some(text)
    }
}

/// The line of one transition.
pub open spec fn row_line(row: RowView) -> Seq<char> {
    row.start + " --> "@ + row.target + match transition_text(row) {
        Some(t) => t,
        None => seq![],
    } + "\n"@
}

/// The lines of the transitions, in order.
pub open spec fn rows_text(rows: Seq<RowView>) -> Seq<char>
    decreases rows.len(),
{
    if rows.len() == 0 {
        seq![]
    } else {
        rows_text(rows.drop_last()) + row_line(rows.last())
    }
}

/// The diagram: a header, the initial transition into the first row's start
/// state, one line per row, and the closing line.
pub open spec fn diagram(rows: Seq<RowView>) -> Seq<char> {
    "@startuml\nhide empty description\n[*] --> "@ + rows[0].start + "\n"@ + rows_text(rows)
        + "@enduml"@
}

/// Draws the diagram of a non-empty list of rows.
pub fn renderDiagram(rows: &Vec<Row>) -> (r: String)
    requires
        rows@.len() > 0,
    ensures
        r@ == diagram(row_views(rows@)),
{
    let ghost views = row_views(rows@);
    let mut out = joined("@startuml\nhide empty description\n[*] --> ", rows[0].start.as_str());
    out.append("\n");
    let ghost head = out@;
    let mut i: usize = 0;
    while i < rows.len()
        invariant
            views == row_views(rows@),
            i <= rows@.len(),
            out@ == head + rows_text(views.take(i as int)),
        decreases rows@.len() - i,
    {
        let row = &rows[i];
        assert(views.take(i + 1).drop_last() =~= views.take(i as int));
        assert(views[i as int] == row@);
        out.append(row.start.as_str());
        out.append(" --> ");
        out.append(row.target.as_str());
        match makeTransitionText(row) {
            Some(t) => out.append(t.as_str()),
            None => {},
        }
        out.append("\n");
        proof {
            let line = row_line(row@);
            assert(out@ =~= head + rows_text(views.take(i as int)) + line);
        }
        i = i + 1;
    }
    assert(views.take(rows@.len() as int) =~= views);
    out.append("@enduml");
    assert(views[0] == rows@[0]@);
    out
}

} // verus!
