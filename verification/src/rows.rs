//! The list on the screen.

use vstd::prelude::*;
use vstd::string::*;

use crate::outside::{pretty_size, size_text};
use crate::project::{entry_models, EntryModel, ProjectEntry};
use crate::state::App;
use crate::style::{line_models, styled, Color, Line, SpanModel, Style};
use crate::text::{decimal, push_decimal};

verus! {

/// The sign before an entry.
pub open spec fn marker(entry: EntryModel) -> Seq<char> {
    if entry.cleaned {
        "✓"@
    } else if entry.cleaning {
        "…"@
    } else if entry.marked {
        "x"@
    } else {
        " "@
    }
}

/// The look of the sign before an entry.
pub open spec fn marker_style(entry: EntryModel) -> Style {
    if entry.cleaned {
        Style::plain().fg(Color::Green)
    } else if entry.cleaning {
        Style::plain().fg(Color::Yellow).bold()
    } else if entry.marked {
        Style::plain().fg(Color::Red).bold()
    } else {
        Style::plain().fg(Color::DarkGray)
    }
}

/// The look of the name of an entry.
pub open spec fn name_style(entry: EntryModel) -> Style {
    if entry.cleaned {
        Style::plain().fg(Color::DarkGray).crossed_out()
    } else {
        Style::plain().fg(Color::White).bold()
    }
}

/// What an entry takes, or what became of it.
pub open spec fn size_words(entry: EntryModel, size: Seq<char>) -> Seq<char> {
    if entry.cleaned {
        "cleaned"@
    } else if entry.cleaning {
        "cleaning…"@
    } else {
        size
    }
}

/// The row of an entry, number `number` of `total`, with its name and its size
/// in words.
pub open spec fn row(
    entry: EntryModel,
    number: nat,
    total: nat,
    name: Seq<char>,
    size: Seq<char>,
) -> Seq<SpanModel> {
    seq![
        styled("["@ + marker(entry) + "] "@, marker_style(entry)),
        styled(
            "["@ + decimal(number) + "/"@ + decimal(total) + "] "@,
            Style::plain().fg(Color::DarkGray),
        ),
        styled(name + " "@, name_style(entry)),
        styled(entry.project.kind + " "@, Style::plain().fg(Color::Cyan)),
        styled("("@ + entry.last_modified_str + ") "@, Style::plain().fg(Color::DarkGray)),
        styled(
            size_words(entry, size),
            Style::plain().fg(
                if entry.cleaned {
                    Color::DarkGray
                } else {
                    Color::Yellow
                },
            ),
        ),
    ]
}

/// The row of an entry, with its own name and size.
pub open spec fn row_of_entry(entry: EntryModel, number: nat, total: nat) -> Seq<SpanModel> {
    row(entry, number, total, entry.display_name(), size_text(entry.artifact_bytes))
}

/// The rows of the first `n` positions; a position that is not there has none.
pub open spec fn rows(entries: Seq<EntryModel>, visible: Seq<usize>, n: nat) -> Seq<Seq<SpanModel>>
    decreases n,
{
    if n == 0 {
        seq![]
    } else {
        let before = rows(entries, visible, (n - 1) as nat);
        let idx = visible[n - 1];
        if idx < entries.len() {
            before.push(row_of_entry(entries[idx as int], n, visible.len()))
        } else {
            before
        }
    }
}

/// The row of an entry, from its number, its name and its size in words.
pub fn row_from(entry: &ProjectEntry, number: usize, total: usize, name: &str, size: &str) -> (r:
    Line)
    ensures
        r@ == row(entry@, number as nat, total as nat, name@, size@),
{
    let mut line = Line::new();
    let sign = if entry.cleaned {
        "✓"
    } else if entry.cleaning {
        "…"
    } else if entry.marked {
        "x"
    } else {
        " "
    };
    let sign_style = if entry.cleaned {
        Style::plain().fg(Color::Green)
    } else if entry.cleaning {
        Style::plain().fg(Color::Yellow).bold()
    } else if entry.marked {
        Style::plain().fg(Color::Red).bold()
    } else {
        Style::plain().fg(Color::DarkGray)
    };
    let boxed = "[".to_owned().concat(sign).concat("] ");
    line.push_styled(boxed.as_str(), sign_style);
    let mut place = "[".to_owned();
    push_decimal(&mut place, number as u64);
    place.append("/");
    push_decimal(&mut place, total as u64);
    place.append("] ");
    line.push_styled(place.as_str(), Style::plain().fg(Color::DarkGray));
    let named = name.to_owned().concat(" ");
    let look = if entry.cleaned {
        Style::plain().fg(Color::DarkGray).crossed_out()
    } else {
        Style::plain().fg(Color::White).bold()
    };
    line.push_styled(named.as_str(), look);
    let kind = entry.project.kind.clone().concat(" ");
    line.push_styled(kind.as_str(), Style::plain().fg(Color::Cyan));
    let age = "(".to_owned().concat(entry.last_modified_str.as_str()).concat(") ");
    line.push_styled(age.as_str(), Style::plain().fg(Color::DarkGray));
    let words = if entry.cleaned {
        "cleaned"
    } else if entry.cleaning {
        "cleaning…"
    } else {
        size
    };
    let size_color = if entry.cleaned {
        Color::DarkGray
    } else {
        Color::Yellow
    };
    line.push_styled(words, Style::plain().fg(size_color));
    assert(line@ == row(entry@, number as nat, total as nat, name@, size@));
    line
}

/// The rows of a list of entries for the positions that are shown.
pub fn list_lines(entries: &Vec<ProjectEntry>, visible_indices: &Vec<usize>) -> (r: Vec<Line>)
    ensures
        line_models(r@) == rows(
            entry_models(entries@),
            visible_indices@,
            visible_indices@.len(),
        ),
{
    let total: usize = visible_indices.len();
    let mut lines: Vec<Line> = Vec::new();
    let mut i: usize = 0;
    assert(line_models(lines@) == rows(entry_models(entries@), visible_indices@, 0));
    while i < total
        invariant
            i <= total,
            total == visible_indices.len(),
            line_models(lines@) == rows(entry_models(entries@), visible_indices@, i as nat),
        decreases total - i,
    {
        let idx: usize = visible_indices[i];
        if idx < entries.len() {
            let entry = &entries[idx];
            let name = entry.display_name();
            let size = pretty_size(entry.artifact_bytes);
            let ghost before = line_models(lines@);
            let line = row_from(entry, i + 1, total, name.as_str(), size.as_str());
            lines.push(line);
            assert(line_models(lines@) == before.push(line@));
        }
        i = i + 1;
    }
    lines
}

impl App {
    /// The list on the screen.
    pub fn list_lines(&self) -> (r: Vec<Line>)
        ensures
            line_models(r@) == rows(self@.entries, self@.visible, self@.visible.len()),
    {
        list_lines(self.entries(), self.visible_indices())
    }
}

/// Every position that is shown has its row, in order, with its number.
pub proof fn law_every_position_has_its_row(
    entries: Seq<EntryModel>,
    visible: Seq<usize>,
    n: nat,
)
    requires
        n <= visible.len(),
        forall|k: int| 0 <= k < visible.len() ==> (#[trigger] visible[k]) < entries.len(),
    ensures
        rows(entries, visible, n).len() == n,
        forall|k: int|
            0 <= k < n ==> (#[trigger] rows(entries, visible, n)[k]) == row_of_entry(
                entries[visible[k] as int],
                (k + 1) as nat,
                visible.len(),
            ),
    decreases n,
{
    if n > 0 {
        law_every_position_has_its_row(entries, visible, (n - 1) as nat);
        assert(visible[n - 1] < entries.len());
    }
}

/// A row tells what became of its entry, its number among the rows, its name, its
/// kind, its age and what it takes. What has been cleaned comes first, then what is
/// being cleaned, then what is marked.
pub proof fn law_row(entry: EntryModel, number: nat, total: nat, name: Seq<char>, size: Seq<char>)
    ensures
        ({
            let line = row(entry, number, total, name, size);
            let gray = Style::plain().fg(Color::DarkGray);
            &&& line.len() == 6
            &&& entry.cleaned ==> line[0].text == "["@ + "✓"@ + "] "@ && line[0].style
                == Style::plain().fg(Color::Green)
            &&& entry.cleaning && !entry.cleaned ==> line[0].text == "["@ + "…"@ + "] "@
                && line[0].style == Style::plain().fg(Color::Yellow).bold()
            &&& entry.marked && !entry.cleaned && !entry.cleaning ==> line[0].text == "["@ + "x"@
                + "] "@ && line[0].style == Style::plain().fg(Color::Red).bold()
            &&& !entry.marked && !entry.cleaned && !entry.cleaning ==> line[0].text == "["@ + " "@
                + "] "@ && line[0].style == gray
            &&& line[1].text == "["@ + decimal(number) + "/"@ + decimal(total) + "] "@
            &&& line[1].style == gray
            &&& line[2].text == name + " "@
            &&& entry.cleaned ==> line[2].style == gray.crossed_out()
            &&& !entry.cleaned ==> line[2].style == Style::plain().fg(Color::White).bold()
            &&& line[3].text == entry.project.kind + " "@
            &&& line[3].style == Style::plain().fg(Color::Cyan)
            &&& line[4].text == "("@ + entry.last_modified_str + ") "@ && line[4].style == gray
            &&& entry.cleaned ==> line[5].text == "cleaned"@ && line[5].style == gray
            &&& entry.cleaning && !entry.cleaned ==> line[5].text == "cleaning…"@
            &&& !entry.cleaning && !entry.cleaned ==> line[5].text == size
            &&& !entry.cleaned ==> line[5].style == Style::plain().fg(Color::Yellow)
        }),
{
}

/// Row by row, the list tells of the entries whose positions are shown, numbered
/// from one, each under the name of its path and with its own bytes in words.
pub proof fn law_list(entries: Seq<EntryModel>, visible: Seq<usize>, k: int)
    requires
        0 <= k < visible.len(),
        forall|k: int| 0 <= k < visible.len() ==> (#[trigger] visible[k]) < entries.len(),
    ensures
        rows(entries, visible, visible.len()).len() == visible.len(),
        rows(entries, visible, visible.len())[k] == row(
            entries[visible[k] as int],
            (k + 1) as nat,
            visible.len(),
            entries[visible[k] as int].project.path.display_name(),
            size_text(entries[visible[k] as int].artifact_bytes),
        ),
{
    law_every_position_has_its_row(entries, visible, visible.len());
}

/// A position that is not in the list has no row.
pub proof fn law_no_row_for_a_stranger(entries: Seq<EntryModel>, visible: Seq<usize>, n: nat)
    requires
        n < visible.len(),
        visible[n as int] >= entries.len(),
    ensures
        rows(entries, visible, n + 1) == rows(entries, visible, n),
{
}

} // verus!
