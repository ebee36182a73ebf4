//! The lines below the list: the query, the keys and what has been freed.

use vstd::prelude::*;
use vstd::string::*;

use crate::model::{AppMode, AppModel};
use crate::outside::{pretty_size, size_text};
use crate::state::App;
use crate::style::{line_models, raw, styled, Color, Line, SpanModel, Style};
use crate::text::{decimal, push_decimal};

verus! {

/// A key, as it stands in the line of keys.
pub open spec fn key_span(key: Seq<char>) -> SpanModel {
    styled(" "@ + key + " "@, Style::plain().fg(Color::Cyan))
}

/// The line of keys.
pub open spec fn shortcuts() -> Seq<SpanModel> {
    seq![
        key_span("j/k"@),
        raw("nav  "@),
        key_span("space"@),
        raw("mark  "@),
        key_span("d"@),
        raw("delete  "@),
        key_span("c"@),
        raw("clean marked  "@),
        key_span("/"@),
        raw("search  "@),
        key_span("i"@),
        raw("info  "@),
        key_span("o"@),
        raw("open  "@),
        key_span("s"@),
        raw("sort  "@),
        key_span("q"@),
        raw("quit"@),
    ]
}

/// How much has been cleaned and freed; nothing where nothing has been.
pub open spec fn summary(count: nat, freed: Seq<char>) -> Seq<char> {
    if count > 0 {
        " cleaned: "@ + decimal(count) + " · freed: "@ + freed
    } else {
        seq![]
    }
}

/// The two lines at the bottom of the screen.
pub open spec fn footer(count: nat, freed: Seq<char>) -> Seq<Seq<SpanModel>> {
    seq![shortcuts(), seq![styled(summary(count, freed), Style::plain().fg(Color::Green))]]
}

/// The line of the query.
pub open spec fn search_bar(mode: AppMode, query: Seq<char>) -> Seq<SpanModel> {
    let writing = mode == AppMode::Search;
    seq![
        if writing {
            styled(" search: "@, Style::plain().fg(Color::Black).bg(Color::Cyan).bold())
        } else {
            styled(" filter: "@, Style::plain().fg(Color::Black).bg(Color::DarkGray).bold())
        },
        raw(" "@),
        styled(query, Style::plain().fg(Color::White).bold()),
        styled(
            if writing {
                "_"@
            } else {
                ""@
            },
            Style::plain().fg(Color::White).slow_blink(),
        ),
        raw("  "@),
        styled(
            if writing {
                "[Enter] confirm  [Esc] cancel"@
            } else {
                "[Esc] clear filter  [/] edit"@
            },
            Style::plain().fg(Color::DarkGray),
        ),
    ]
}

impl AppModel {
    /// The query stands on the screen: it is being written, or there is one.
    pub open spec fn shows_search_bar(self) -> bool {
        self.mode == AppMode::Search || self.query.len() > 0
    }
}

/// Adds a key and what it is for.
fn push_shortcut(line: &mut Line, key: &str, use_for: &str)
    ensures
        final(line)@ == old(line)@.push(key_span(key@)).push(raw(use_for@)),
{
    let words = " ".to_owned().concat(key).concat(" ");
    line.push_styled(words.as_str(), Style::plain().fg(Color::Cyan));
    line.push_raw(use_for);
}

/// The two lines at the bottom of the screen, from the number of projects that
/// were cleaned and what was freed in words.
pub fn footer_from(cleaned_count: usize, freed: &str) -> (r: Vec<Line>)
    ensures
        line_models(r@) == footer(cleaned_count as nat, freed@),
{
    let mut keys = Line::new();
    push_shortcut(&mut keys, "j/k", "nav  ");
    push_shortcut(&mut keys, "space", "mark  ");
    push_shortcut(&mut keys, "d", "delete  ");
    push_shortcut(&mut keys, "c", "clean marked  ");
    push_shortcut(&mut keys, "/", "search  ");
    push_shortcut(&mut keys, "i", "info  ");
    push_shortcut(&mut keys, "o", "open  ");
    push_shortcut(&mut keys, "s", "sort  ");
    push_shortcut(&mut keys, "q", "quit");
    assert(keys@ == shortcuts());
    let mut words = String::new();
    if cleaned_count > 0 {
        words.append(" cleaned: ");
        push_decimal(&mut words, cleaned_count as u64);
        words.append(" · freed: ");
        words.append(freed);
    }
    assert(words@ == summary(cleaned_count as nat, freed@));
    let mut second = Line::new();
    second.push_styled(words.as_str(), Style::plain().fg(Color::Green));
    let mut lines: Vec<Line> = Vec::new();
    lines.push(keys);
    lines.push(second);
    assert(line_models(lines@) == footer(cleaned_count as nat, freed@)) by {
        assert(second@ == seq![
            styled(summary(cleaned_count as nat, freed@), Style::plain().fg(Color::Green)),
        ]);
    }
    lines
}

/// The line of a query.
pub fn search_bar_from(mode: AppMode, query: &str) -> (r: Line)
    ensures
        r@ == search_bar(mode, query@),
{
    let mut line = Line::new();
    let writing: bool = mode == AppMode::Search;
    if writing {
        line.push_styled(" search: ", Style::plain().fg(Color::Black).bg(Color::Cyan).bold());
    } else {
        line.push_styled(" filter: ", Style::plain().fg(Color::Black).bg(Color::DarkGray).bold());
    }
    line.push_raw(" ");
    line.push_styled(query, Style::plain().fg(Color::White).bold());
    let cursor = if writing {
        "_"
    } else {
        ""
    };
    line.push_styled(cursor, Style::plain().fg(Color::White).slow_blink());
    line.push_raw("  ");
    let help = if writing {
        "[Enter] confirm  [Esc] cancel"
    } else {
        "[Esc] clear filter  [/] edit"
    };
    line.push_styled(help, Style::plain().fg(Color::DarkGray));
    assert(line@ == search_bar(mode, query@));
    line
}

impl App {
    /// The two lines at the bottom of the screen.
    pub fn footer_lines(&self) -> (r: Vec<Line>)
        ensures
            line_models(r@) == footer(
                self@.cleaned_count as nat,
                size_text(self@.cleaned_bytes),
            ),
    {
        let freed = pretty_size(self.cleaned_bytes());
        footer_from(self.cleaned_count(), freed.as_str())
    }

    /// Whether the query stands on the screen.
    pub fn shows_search_bar(&self) -> (r: bool)
        ensures
            r == self@.shows_search_bar(),
    {
        self.mode() == AppMode::Search || !self.search_query().is_empty()
    }

    /// The line of the query.
    pub fn search_bar_line(&self) -> (r: Line)
        ensures
            r@ == search_bar(self@.mode, self@.query),
    {
        search_bar_from(self.mode(), self.search_query())
    }
}

/// The second line at the bottom tells how many projects were cleaned and what that
/// freed, and nothing where none was. The first line does not change.
pub proof fn law_bottom_lines(count: nat, freed: Seq<char>, other: nat, other_freed: Seq<char>)
    ensures
        footer(count, freed).len() == 2,
        footer(count, freed)[0] == footer(other, other_freed)[0],
        footer(count, freed)[1].len() == 1,
        footer(count, freed)[1][0].style == Style::plain().fg(Color::Green),
        count == 0 ==> footer(count, freed)[1][0].text.len() == 0,
        count > 0 ==> footer(count, freed)[1][0].text == " cleaned: "@ + decimal(count)
            + " · freed: "@ + freed,
{
}

/// Each key at the bottom stands between two spaces, in its color, before what it is
/// for.
pub proof fn law_shortcuts()
    ensures
        shortcuts().len() == 18,
        shortcuts()[0].text == " "@ + "j/k"@ + " "@ && shortcuts()[1].text == "nav  "@,
        shortcuts()[2].text == " "@ + "space"@ + " "@ && shortcuts()[3].text == "mark  "@,
        shortcuts()[4].text == " "@ + "d"@ + " "@ && shortcuts()[5].text == "delete  "@,
        shortcuts()[6].text == " "@ + "c"@ + " "@ && shortcuts()[7].text == "clean marked  "@,
        shortcuts()[8].text == " "@ + "/"@ + " "@ && shortcuts()[9].text == "search  "@,
        shortcuts()[10].text == " "@ + "i"@ + " "@ && shortcuts()[11].text == "info  "@,
        shortcuts()[12].text == " "@ + "o"@ + " "@ && shortcuts()[13].text == "open  "@,
        shortcuts()[14].text == " "@ + "s"@ + " "@ && shortcuts()[15].text == "sort  "@,
        shortcuts()[16].text == " "@ + "q"@ + " "@ && shortcuts()[17].text == "quit"@,
        forall|i: int|
            0 <= i < 18 ==> (#[trigger] shortcuts()[i]).style == if i % 2 == 0 {
                Style::plain().fg(Color::Cyan)
            } else {
                Style::plain()
            },
{
}

/// The query stands on the screen while it is written and while there is one. Its
/// line shows it as it is, with a cursor and the keys that end it while it is
/// written, and with the keys that change it else.
pub proof fn law_query_line(m: AppModel)
    ensures
        m.shows_search_bar() <==> m.mode == AppMode::Search || m.query.len() > 0,
        ({
            let line = search_bar(m.mode, m.query);
            let white = Style::plain().fg(Color::White);
            let black = Style::plain().fg(Color::Black);
            &&& line.len() == 6
            &&& m.mode == AppMode::Search ==> {
                &&& line[0].text == " search: "@ && line[0].style == black.bg(Color::Cyan).bold()
                &&& line[3].text == "_"@
                &&& line[5].text == "[Enter] confirm  [Esc] cancel"@
            }
            &&& m.mode != AppMode::Search ==> {
                &&& line[0].text == " filter: "@ && line[0].style == black.bg(
                    Color::DarkGray,
                ).bold()
                &&& line[3].text == ""@
                &&& line[5].text == "[Esc] clear filter  [/] edit"@
            }
            &&& line[1].text == " "@ && line[1].style == Style::plain()
            &&& line[2].text == m.query && line[2].style == white.bold()
            &&& line[3].style == white.slow_blink()
            &&& line[4].text == "  "@ && line[4].style == Style::plain()
            &&& line[5].style == Style::plain().fg(Color::DarkGray)
        }),
{
}

} // verus!
