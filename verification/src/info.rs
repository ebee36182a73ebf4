//! The window that tells about one project.

use vstd::prelude::*;
use vstd::string::*;

use crate::outside::{pretty_size, size_text};
use crate::project::{EntryModel, ProjectEntry};
use crate::state::App;
use crate::style::{line_models, raw, styled, Color, Line, SpanModel, Style};

verus! {

/// A directory that a project keeps artifacts in, and whether it is there.
pub struct ArtifactDir {
    pub name: String,
    pub exists: bool,
}

/// A directory that a project keeps artifacts in, as a mathematical value.
#[verifier::ext_equal]
pub struct DirModel {
    pub name: Seq<char>,
    pub exists: bool,
}

impl View for ArtifactDir {
    type V = DirModel;

    open spec fn view(&self) -> DirModel {
        DirModel { name: self.name@, exists: self.exists }
    }
}

/// The directories of a list, as mathematical values.
pub open spec fn dir_models(dirs: Seq<ArtifactDir>) -> Seq<DirModel> {
    Seq::new(dirs.len(), |i: int| dirs[i]@)
}

/// What became of an entry.
pub open spec fn status_text(entry: EntryModel) -> Seq<char> {
    if entry.cleaned {
        "cleaned"@
    } else if entry.cleaning {
        "cleaning…"@
    } else if entry.marked {
        "marked"@
    } else {
        "pending"@
    }
}

/// The color of what became of an entry.
pub open spec fn status_color(entry: EntryModel) -> Color {
    if entry.cleaned {
        Color::Green
    } else if entry.cleaning {
        Color::Yellow
    } else if entry.marked {
        Color::LightRed
    } else {
        Color::DarkGray
    }
}

/// How long ago the artifacts changed.
pub open spec fn age_words(entry: EntryModel) -> Seq<char> {
    if entry.last_modified_str.len() == 0 {
        "unknown"@
    } else {
        entry.last_modified_str
    }
}

/// The name of a value.
pub open spec fn label(text: Seq<char>) -> SpanModel {
    styled(text, Style::plain().fg(Color::DarkGray))
}

/// A value.
pub open spec fn value(text: Seq<char>) -> SpanModel {
    styled(text, Style::plain().fg(Color::White).bold())
}

/// The line of a directory.
pub open spec fn dir_line(dir: DirModel) -> Seq<SpanModel> {
    if dir.exists {
        seq![raw("  "@), styled("•"@ + " "@ + dir.name, Style::plain().fg(Color::White))]
    } else {
        seq![raw("  "@), styled("·"@ + " "@ + dir.name, Style::plain().fg(Color::DarkGray))]
    }
}

/// The lines about a project before those of its directories.
pub open spec fn facts(
    entry: EntryModel,
    name: Seq<char>,
    path: Seq<char>,
    way: Seq<char>,
    size: Seq<char>,
) -> Seq<Seq<SpanModel>> {
    seq![
        seq![label("Project   "@), value(name)],
        seq![
            label("Type      "@),
            styled(entry.project.kind, Style::plain().fg(Color::Cyan).bold()),
        ],
        seq![label("Path      "@), value(path)],
        seq![label("Location  "@), styled(way, Style::plain().fg(Color::Yellow))],
        seq![],
        seq![label("Last mod  "@), value(age_words(entry))],
        seq![label("Size      "@), styled(size, Style::plain().fg(Color::Yellow).bold())],
        seq![
            label("Status    "@),
            styled(status_text(entry), Style::plain().fg(status_color(entry)).bold()),
        ],
        seq![],
        seq![label("Artifact dirs:"@)],
    ]
}

/// The lines about a project, with its texts in words.
pub open spec fn info(
    entry: EntryModel,
    name: Seq<char>,
    path: Seq<char>,
    way: Seq<char>,
    size: Seq<char>,
    dirs: Seq<DirModel>,
) -> Seq<Seq<SpanModel>> {
    facts(entry, name, path, way, size) + Seq::new(dirs.len(), |i: int| dir_line(dirs[i])) + seq![
        seq![],
        seq![label(" Press [Esc] or [i] to close "@)],
    ]
}

/// The lines about a project, with its own texts.
pub open spec fn info_of(entry: EntryModel, dirs: Seq<DirModel>) -> Seq<Seq<SpanModel>> {
    info(
        entry,
        entry.display_name(),
        entry.project.path.text(),
        entry.project.path.breadcrumb(),
        size_text(entry.artifact_bytes),
        dirs,
    )
}

/// A line of a name and a value in a style.
fn labelled(name: &str, text: &str, style: Style) -> (r: Line)
    ensures
        r@ == seq![label(name@), styled(text@, style)],
{
    let mut line = Line::new();
    line.push_styled(name, Style::plain().fg(Color::DarkGray));
    line.push_styled(text, style);
    assert(line@ == seq![label(name@), styled(text@, style)]);
    line
}

/// A line of a name alone.
fn only_label(name: &str) -> (r: Line)
    ensures
        r@ == seq![label(name@)],
{
    let mut line = Line::new();
    line.push_styled(name, Style::plain().fg(Color::DarkGray));
    assert(line@ == seq![label(name@)]);
    line
}

/// The lines about a project before those of its directories.
fn facts_from(entry: &ProjectEntry, name: &str, path: &str, way: &str, size: &str) -> (r: Vec<
    Line,
>)
    ensures
        line_models(r@) == facts(entry@, name@, path@, way@, size@),
{
    let strong = Style::plain().fg(Color::White).bold();
    let status = if entry.cleaned {
        "cleaned"
    } else if entry.cleaning {
        "cleaning…"
    } else if entry.marked {
        "marked"
    } else {
        "pending"
    };
    let color = if entry.cleaned {
        Color::Green
    } else if entry.cleaning {
        Color::Yellow
    } else if entry.marked {
        Color::LightRed
    } else {
        Color::DarkGray
    };
    let age = if entry.last_modified_str.as_str().is_empty() {
        "unknown"
    } else {
        entry.last_modified_str.as_str()
    };
    let mut lines: Vec<Line> = Vec::new();
    lines.push(labelled("Project   ", name, strong));
    lines.push(
        labelled(
            "Type      ",
            entry.project.kind.as_str(),
            Style::plain().fg(Color::Cyan).bold(),
        ),
    );
    lines.push(labelled("Path      ", path, strong));
    lines.push(labelled("Location  ", way, Style::plain().fg(Color::Yellow)));
    lines.push(Line::new());
    lines.push(labelled("Last mod  ", age, strong));
    lines.push(labelled("Size      ", size, Style::plain().fg(Color::Yellow).bold()));
    lines.push(labelled("Status    ", status, Style::plain().fg(color).bold()));
    lines.push(Line::new());
    lines.push(only_label("Artifact dirs:"));
    assert(line_models(lines@) == facts(entry@, name@, path@, way@, size@));
    lines
}

/// The lines about a project, from its texts in words and its directories.
pub fn info_from(
    entry: &ProjectEntry,
    name: &str,
    path: &str,
    way: &str,
    size: &str,
    dirs: &Vec<ArtifactDir>,
) -> (r: Vec<Line>)
    ensures
        line_models(r@) == info(entry@, name@, path@, way@, size@, dir_models(dirs@)),
{
    let mut lines = facts_from(entry, name, path, way, size);
    let ghost first = line_models(lines@);
    let ghost models = dir_models(dirs@);
    let mut i: usize = 0;
    assert(first + Seq::new(0, |j: int| dir_line(models[j])) == first);
    while i < dirs.len()
        invariant
            i <= dirs.len(),
            models == dir_models(dirs@),
            line_models(lines@) == first + Seq::new(i as nat, |j: int| dir_line(models[j])),
        decreases dirs.len() - i,
    {
        let ghost before = line_models(lines@);
        let mut line = Line::new();
        line.push_raw("  ");
        let sign = if dirs[i].exists {
            "•"
        } else {
            "·"
        };
        let color = if dirs[i].exists {
            Color::White
        } else {
            Color::DarkGray
        };
        let words = sign.to_owned().concat(" ").concat(dirs[i].name.as_str());
        line.push_styled(words.as_str(), Style::plain().fg(color));
        assert(line@ == dir_line(models[i as int]));
        lines.push(line);
        assert(line_models(lines@) == before.push(line@));
        assert(before.push(line@) == first + Seq::new(
            (i + 1) as nat,
            |j: int| dir_line(models[j]),
        ));
        i = i + 1;
    }
    let ghost before = line_models(lines@);
    let last = only_label(" Press [Esc] or [i] to close ");
    lines.push(Line::new());
    lines.push(last);
    assert(line_models(lines@) == before + seq![
        seq![],
        seq![label(" Press [Esc] or [i] to close "@)],
    ]);
    lines
}

/// The lines about a project.
pub fn info_lines(entry: &ProjectEntry, dirs: &Vec<ArtifactDir>) -> (r: Vec<Line>)
    ensures
        line_models(r@) == info_of(entry@, dir_models(dirs@)),
{
    let name = entry.display_name();
    let path = entry.project.path.text();
    let way = entry.project.path.breadcrumb();
    let size = pretty_size(entry.artifact_bytes);
    info_from(entry, name.as_str(), path.as_str(), way.as_str(), size.as_str(), dirs)
}

impl App {
    /// The lines about the selected project, where there is one.
    pub fn info_lines(&self, dirs: &Vec<ArtifactDir>) -> (r: Option<Vec<Line>>)
        ensures
            r is Some <==> self@.selected_entry() is Some,
            r is Some ==> line_models(r.unwrap()@) == info_of(
                self@.selected_entry().unwrap(),
                dir_models(dirs@),
            ),
    {
        match self.selected_entry() {
            Some(entry) => Some(info_lines(entry, dirs)),
            None => None,
        }
    }
}

/// The window tells the name, the kind, the path, the way to it, the age, the size
/// and the state of a project, then one line for each directory of its artifacts,
/// and last how to close it.
pub proof fn law_window(
    entry: EntryModel,
    name: Seq<char>,
    path: Seq<char>,
    way: Seq<char>,
    size: Seq<char>,
    dirs: Seq<DirModel>,
)
    ensures
        ({
            let lines = info(entry, name, path, way, size, dirs);
            let gray = Style::plain().fg(Color::DarkGray);
            let strong = Style::plain().fg(Color::White).bold();
            &&& lines.len() == 12 + dirs.len()
            &&& lines[0] == seq![styled("Project   "@, gray), styled(name, strong)]
            &&& lines[1] == seq![
                styled("Type      "@, gray),
                styled(entry.project.kind, Style::plain().fg(Color::Cyan).bold()),
            ]
            &&& lines[2] == seq![styled("Path      "@, gray), styled(path, strong)]
            &&& lines[3] == seq![
                styled("Location  "@, gray),
                styled(way, Style::plain().fg(Color::Yellow)),
            ]
            &&& lines[4].len() == 0
            &&& lines[5] == seq![
                styled("Last mod  "@, gray),
                styled(
                    if entry.last_modified_str.len() == 0 {
                        "unknown"@
                    } else {
                        entry.last_modified_str
                    },
                    strong,
                ),
            ]
            &&& lines[6] == seq![
                styled("Size      "@, gray),
                styled(size, Style::plain().fg(Color::Yellow).bold()),
            ]
            &&& lines[7].len() == 2 && lines[7][0] == styled("Status    "@, gray)
            &&& entry.cleaned ==> lines[7][1] == styled(
                "cleaned"@,
                Style::plain().fg(Color::Green).bold(),
            )
            &&& entry.cleaning && !entry.cleaned ==> lines[7][1] == styled(
                "cleaning…"@,
                Style::plain().fg(Color::Yellow).bold(),
            )
            &&& entry.marked && !entry.cleaning && !entry.cleaned ==> lines[7][1] == styled(
                "marked"@,
                Style::plain().fg(Color::LightRed).bold(),
            )
            &&& !entry.marked && !entry.cleaning && !entry.cleaned ==> lines[7][1] == styled(
                "pending"@,
                gray.bold(),
            )
            &&& lines[8].len() == 0
            &&& lines[9] == seq![styled("Artifact dirs:"@, gray)]
            &&& forall|i: int|
                10 <= i < 10 + dirs.len() ==> #[trigger] lines[i] == seq![
                    raw("  "@),
                    if dirs[i - 10].exists {
                        styled("•"@ + " "@ + dirs[i - 10].name, Style::plain().fg(Color::White))
                    } else {
                        styled("·"@ + " "@ + dirs[i - 10].name, gray)
                    },
                ]
            &&& lines[10 + dirs.len() as int].len() == 0
            &&& lines[11 + dirs.len() as int] == seq![styled(" Press [Esc] or [i] to close "@, gray)]
        }),
{
}

/// The window is about the project in the selected row, under the name of its path,
/// with its own path, way and bytes.
pub proof fn law_window_of(entry: EntryModel, dirs: Seq<DirModel>, text: Seq<char>, style: Style)
    ensures
        info_of(entry, dirs) == info(
            entry,
            entry.project.path.display_name(),
            entry.project.path.raw.text(),
            entry.project.path.breadcrumb(),
            size_text(entry.artifact_bytes),
            dirs,
        ),
        styled(text, style) == (SpanModel { text, style }),
        raw(text) == (SpanModel { text, style: Style::plain() }),
{
}

/// What is said of a directory is said of its fields.
pub proof fn law_views(dir: ArtifactDir, dirs: Seq<ArtifactDir>)
    ensures
        dir@.name == dir.name@ && dir@.exists == dir.exists,
        dir_models(dirs).len() == dirs.len(),
        forall|i: int| 0 <= i < dirs.len() ==> #[trigger] dir_models(dirs)[i] == dirs[i]@,
{
}

} // verus!
