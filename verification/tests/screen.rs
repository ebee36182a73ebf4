use kondor::bars::{footer_from, search_bar_from};
use kondor::header::{header_from, Counts};
use kondor::info::{info_from, info_lines, ArtifactDir};
use kondor::layout::{
    assign_areas, centered_rect, centered_sizes, screen_sizes, Constraint, Rect,
};
use kondor::model::AppMode;
use kondor::order::SortMode;
use kondor::path::{PathPart, ProjectPath, RawText};
use kondor::project::{Project, ProjectEntry};
use kondor::rows::{list_lines, row_from};
use kondor::state::{App, CleanDone};
use kondor::style::{Color, Line, Style};

fn entry(name: &str, bytes: u64) -> ProjectEntry {
    ProjectEntry {
        project: Project {
            id: 0,
            path: ProjectPath {
                raw: RawText::Bytes(format!("/w/{name}").into_bytes()),
                parts: vec![
                    PathPart::RootDir,
                    PathPart::Normal(RawText::Bytes(b"w".to_vec())),
                    PathPart::Normal(RawText::Bytes(name.as_bytes().to_vec())),
                ],
            },
            kind: "Cargo".to_string(),
        },
        artifact_bytes: bytes,
        last_modified_str: "2 days ago".to_string(),
        last_modified_secs: 172_800,
        marked: false,
        cleaning: false,
        cleaned: false,
    }
}

fn spans(line: &Line) -> Vec<(&str, Style)> {
    line.spans.iter().map(|s| (s.text.as_str(), s.style)).collect()
}

fn text(line: &Line) -> String {
    line.spans.iter().map(|s| s.text.as_str()).collect()
}

fn fg(color: Color) -> Style {
    Style::plain().fg(color)
}

#[test]
fn styles_add_up() {
    let style = Style::plain().fg(Color::Red).bg(Color::Black).bold().crossed_out().slow_blink();
    assert_eq!(style.fg, Some(Color::Red));
    assert_eq!(style.bg, Some(Color::Black));
    assert!(style.bold && style.crossed_out && style.slow_blink);
}

#[test]
fn the_top_line_of_a_quiet_list() {
    let mut app = App::new(SortMode::Size, false);
    app.tick(vec![entry("a", 1024), entry("b", 512)], &Vec::new());
    assert!(app.header_fits());
    assert_eq!(
        spans(&app.header_line()),
        vec![
            (" 2 project(s) ", fg(Color::Cyan).bold()),
            (" 1.5KiB ", fg(Color::Yellow).bold()),
            (" sort:size ", fg(Color::DarkGray)),
        ]
    );
}

#[test]
fn the_top_line_tells_of_marks_and_cleaning() {
    let mut app = App::new(SortMode::Date, false);
    app.tick(
        vec![entry("a", 1024), entry("b", 2048), entry("ab", 4096), entry("c", 8192)],
        &Vec::new(),
    );
    app.toggle_mark();
    app.clean_marked();
    app.mark_all();
    app.tick(Vec::new(), &vec![CleanDone { path: entry("c", 0).project.path, bytes: 8192 }]);
    app.append_search('b');
    assert_eq!(
        spans(&app.header_line()),
        vec![
            (" 2/4 project(s) ", fg(Color::Cyan).bold()),
            (" 7.0KiB ", fg(Color::Yellow).bold()),
            (" → 2 marked: 6.0KiB ", fg(Color::LightRed).bold()),
            (" ⏳ 1 cleaning… ", fg(Color::Yellow).bold()),
            (" sort:date ", fg(Color::DarkGray)),
        ]
    );
}

#[test]
fn the_top_line_from_its_numbers() {
    let counts = Counts { visible: 0, total: 10, marked: 3, cleaning: 0 };
    let line = header_from(counts, "L", "M", SortMode::Size, true);
    assert_eq!(
        spans(&line),
        vec![
            (" 0/10 project(s) ", fg(Color::Cyan).bold()),
            (" L ", fg(Color::Yellow).bold()),
            (" → 3 marked: M ", fg(Color::LightRed).bold()),
            (" sort:size ", fg(Color::DarkGray)),
            (" dry-run ", fg(Color::Red)),
        ]
    );
}

#[test]
fn more_freed_than_found_does_not_fit() {
    let mut app = App::new(SortMode::Size, false);
    app.tick(vec![entry("a", 5)], &vec![CleanDone { path: entry("a", 0).project.path, bytes: 6 }]);
    assert!(!app.header_fits());
}

#[test]
fn a_row_tells_what_became_of_its_entry() {
    let idle = row_from(&entry("a", 9), 3, 12, "N", "S");
    assert_eq!(
        spans(&idle),
        vec![
            ("[ ] ", fg(Color::DarkGray)),
            ("[3/12] ", fg(Color::DarkGray)),
            ("N ", fg(Color::White).bold()),
            ("Cargo ", fg(Color::Cyan)),
            ("(2 days ago) ", fg(Color::DarkGray)),
            ("S", fg(Color::Yellow)),
        ]
    );
    let mut e = entry("a", 9);
    e.marked = true;
    assert_eq!(spans(&row_from(&e, 1, 1, "N", "S"))[0], ("[x] ", fg(Color::Red).bold()));
    e.cleaning = true;
    let line = row_from(&e, 1, 1, "N", "S");
    assert_eq!(spans(&line)[0], ("[…] ", fg(Color::Yellow).bold()));
    assert_eq!(spans(&line)[5], ("cleaning…", fg(Color::Yellow)));
    e.cleaned = true;
    let line = row_from(&e, 1, 1, "N", "S");
    assert_eq!(spans(&line)[0], ("[✓] ", fg(Color::Green)));
    assert_eq!(spans(&line)[2], ("N ", fg(Color::DarkGray).crossed_out()));
    assert_eq!(spans(&line)[5], ("cleaned", fg(Color::DarkGray)));
}

#[test]
fn the_list_has_a_row_for_every_entry_shown() {
    let mut app = App::new(SortMode::Size, false);
    app.tick(vec![entry("a", 1024), entry("b", 2048)], &Vec::new());
    let texts: Vec<String> = app.list_lines().iter().map(text).collect();
    assert_eq!(
        texts,
        vec![
            "[ ] [1/2] b Cargo (2 days ago) 2.0KiB",
            "[ ] [2/2] a Cargo (2 days ago) 1.0KiB",
        ]
    );
}

#[test]
fn a_position_that_is_not_there_has_no_row() {
    let entries = vec![entry("a", 1), entry("b", 2)];
    let texts: Vec<String> = list_lines(&entries, &vec![1, 5, 0]).iter().map(text).collect();
    assert_eq!(
        texts,
        vec!["[ ] [1/3] b Cargo (2 days ago) 2.0B", "[ ] [3/3] a Cargo (2 days ago) 1.0B"]
    );
}

#[test]
fn the_bottom_lines_tell_the_keys_and_the_sum() {
    let quiet = footer_from(0, "F");
    assert_eq!(quiet.len(), 2);
    assert_eq!(
        text(&quiet[0]),
        " j/k nav   space mark   d delete   c clean marked   / search   i info   o open   s sort   q quit"
    );
    assert_eq!(spans(&quiet[0])[2], (" space ", fg(Color::Cyan)));
    assert_eq!(spans(&quiet[0])[3], ("mark  ", Style::plain()));
    assert_eq!(quiet[0].spans.len(), 18);
    assert_eq!(spans(&quiet[1]), vec![("", fg(Color::Green))]);
    assert_eq!(spans(&footer_from(12, "F")[1]), vec![(" cleaned: 12 · freed: F", fg(Color::Green))]);
    let mut app = App::new(SortMode::Size, false);
    app.tick(vec![entry("a", 2048)], &vec![CleanDone { path: entry("a", 0).project.path, bytes: 2048 }]);
    assert_eq!(text(&app.footer_lines()[1]), " cleaned: 1 · freed: 2.0KiB");
}

#[test]
fn the_query_line_tells_how_to_go_on() {
    let writing = search_bar_from(AppMode::Search, "ab");
    assert_eq!(
        spans(&writing),
        vec![
            (" search: ", fg(Color::Black).bg(Color::Cyan).bold()),
            (" ", Style::plain()),
            ("ab", fg(Color::White).bold()),
            ("_", fg(Color::White).slow_blink()),
            ("  ", Style::plain()),
            ("[Enter] confirm  [Esc] cancel", fg(Color::DarkGray)),
        ]
    );
    let there = search_bar_from(AppMode::Normal, "ab");
    assert_eq!(spans(&there)[0], (" filter: ", fg(Color::Black).bg(Color::DarkGray).bold()));
    assert_eq!(spans(&there)[3].0, "");
    assert_eq!(spans(&there)[5].0, "[Esc] clear filter  [/] edit");
}

#[test]
fn the_query_line_stands_while_there_is_a_query() {
    let mut app = App::new(SortMode::Size, false);
    assert!(!app.shows_search_bar());
    app.enter_search();
    assert!(app.shows_search_bar());
    app.append_search('x');
    app.confirm_search();
    assert!(app.shows_search_bar());
    assert_eq!(text(&app.search_bar_line()), " filter:  x  [Esc] clear filter  [/] edit");
    app.cancel_search();
    assert!(!app.shows_search_bar());
}

#[test]
fn the_window_tells_about_a_project() {
    let dirs = vec![
        ArtifactDir { name: "target".to_string(), exists: true },
        ArtifactDir { name: ".xwin-cache".to_string(), exists: false },
    ];
    let lines = info_lines(&entry("a", 1024), &dirs);
    let texts: Vec<String> = lines.iter().map(text).collect();
    assert_eq!(
        texts,
        vec![
            "Project   a",
            "Type      Cargo",
            "Path      /w/a",
            "Location  w › a",
            "",
            "Last mod  2 days ago",
            "Size      1.0KiB",
            "Status    pending",
            "",
            "Artifact dirs:",
            "  • target",
            "  · .xwin-cache",
            "",
            " Press [Esc] or [i] to close ",
        ]
    );
    assert_eq!(spans(&lines[10])[1].1, fg(Color::White));
    assert_eq!(spans(&lines[11])[1].1, fg(Color::DarkGray));
    assert_eq!(spans(&lines[0])[0].1, fg(Color::DarkGray));
    assert_eq!(spans(&lines[0])[1].1, fg(Color::White).bold());
}

#[test]
fn the_window_tells_what_became_of_a_project() {
    let mut e = entry("a", 1);
    e.last_modified_str = String::new();
    let status = |e: &ProjectEntry| {
        let lines = info_from(e, "n", "p", "w", "s", &Vec::new());
        let span = spans(&lines[7])[1];
        (span.0.to_string(), span.1)
    };
    assert_eq!(text(&info_from(&e, "n", "p", "w", "s", &Vec::new())[5]), "Last mod  unknown");
    assert_eq!(status(&e), ("pending".to_string(), fg(Color::DarkGray).bold()));
    e.marked = true;
    assert_eq!(status(&e), ("marked".to_string(), fg(Color::LightRed).bold()));
    e.cleaning = true;
    assert_eq!(status(&e), ("cleaning…".to_string(), fg(Color::Yellow).bold()));
    e.cleaned = true;
    assert_eq!(status(&e), ("cleaned".to_string(), fg(Color::Green).bold()));
}

#[test]
fn the_window_is_about_the_selected_project() {
    let mut app = App::new(SortMode::Size, false);
    assert!(app.info_lines(&Vec::new()).is_none());
    app.tick(vec![entry("a", 1), entry("b", 2)], &Vec::new());
    assert_eq!(text(&app.info_lines(&Vec::new()).unwrap()[0]), "Project   b");
}

#[test]
fn the_screen_is_divided() {
    let size = Rect { x: 0, y: 0, width: 80, height: 24 };
    let mut app = App::new(SortMode::Size, false);
    let areas = app.screen_areas(size);
    assert_eq!(areas.header, Rect { x: 0, y: 0, width: 80, height: 1 });
    assert_eq!(areas.list, Rect { x: 0, y: 1, width: 80, height: 21 });
    assert_eq!(areas.search_bar, None);
    assert_eq!(areas.footer, Rect { x: 0, y: 22, width: 80, height: 2 });
    app.enter_search();
    let areas = app.screen_areas(size);
    assert_eq!(areas.list, Rect { x: 0, y: 1, width: 80, height: 20 });
    assert_eq!(areas.search_bar, Some(Rect { x: 0, y: 21, width: 80, height: 1 }));
    assert_eq!(areas.footer, Rect { x: 0, y: 22, width: 80, height: 2 });
}

#[test]
fn a_screen_with_room_gives_the_rest_to_the_list() {
    let mut app = App::new(SortMode::Size, false);
    for shown in [false, true] {
        if shown {
            app.enter_search();
        }
        let bar: u16 = if shown { 1 } else { 0 };
        for (x, y, width) in [(0u16, 0u16, 80u16), (3, 7, 0), (65_000, 65_500, 1_000)] {
            for height in [4u16, 5, 6, 7, 10, 24, 57, 1_000, 65_535] {
                let rows = height.min(65_535 - y);
                if rows < 4 + bar {
                    continue;
                }
                let size = Rect { x, y, width, height };
                let areas = app.screen_areas(size);
                assert_eq!(areas.header, Rect { height: 1, ..size });
                assert_eq!(areas.list, Rect { y: y + 1, height: rows - 3 - bar, ..size });
                let line = Rect { y: y + rows - 3, height: 1, ..size };
                assert_eq!(areas.search_bar, if shown { Some(line) } else { None });
                assert_eq!(areas.footer, Rect { y: y + rows - 2, height: 2, ..size });
            }
        }
    }
}

#[test]
fn the_sizes_of_the_parts() {
    assert_eq!(
        screen_sizes(true),
        vec![
            Constraint::Length(1),
            Constraint::Min(1),
            Constraint::Length(1),
            Constraint::Length(2),
        ]
    );
    assert_eq!(screen_sizes(false).len(), 3);
    assert_eq!(
        centered_sizes(70),
        vec![
            Constraint::Percentage(15),
            Constraint::Percentage(70),
            Constraint::Percentage(15),
        ]
    );
    assert_eq!(centered_sizes(75)[0], Constraint::Percentage(12));
    let part = |y: u16| Rect { x: 0, y, width: 1, height: 1 };
    let chunks = vec![part(0), part(1), part(2), part(3)];
    let areas = assign_areas(true, &chunks);
    assert_eq!((areas.header.y, areas.list.y, areas.footer.y), (0, 1, 3));
    assert_eq!(areas.search_bar, Some(part(2)));
}

#[test]
fn the_window_stands_in_the_middle() {
    let r = Rect { x: 0, y: 0, width: 100, height: 100 };
    assert_eq!(centered_rect(70, 70, r), Rect { x: 15, y: 15, width: 70, height: 70 });
    assert_eq!(centered_rect(100, 0, r), Rect { x: 0, y: 50, width: 100, height: 0 });
    let r = Rect { x: 3, y: 7, width: 80, height: 24 };
    assert_eq!(centered_rect(70, 70, r), Rect { x: 15, y: 11, width: 56, height: 16 });
    assert_eq!(centered_rect(33, 50, r), Rect { x: 29, y: 13, width: 27, height: 12 });
}

#[test]
fn every_window_has_its_share_of_the_screen() {
    let place = |start: u16, len: u16, percent: u64| {
        let end = (start as u64 + len as u64).min(65_535);
        start as u64 + ((end - start as u64) * percent + 50) / 100
    };
    for percent_x in 0..=100u16 {
        let percent_y = 100 - percent_x;
        for (x, y, width, height) in [
            (0u16, 0u16, 0u16, 0u16),
            (0, 0, 1, 1),
            (2, 9, 3, 2),
            (0, 0, 50, 10),
            (5, 1, 79, 23),
            (0, 0, 80, 25),
            (17, 3, 211, 57),
            (0, 0, 65_535, 65_535),
            (65_000, 65_530, 1_000, 50),
        ] {
            let (side_x, side_y) = ((100 - percent_x) / 2, (100 - percent_y) / 2);
            let left = place(x, width, side_x as u64);
            let right = place(x, width, (side_x + percent_x) as u64);
            let top = place(y, height, side_y as u64);
            let bottom = place(y, height, (side_y + percent_y) as u64);
            let window = Rect {
                x: left as u16,
                y: top as u16,
                width: (right - left) as u16,
                height: (bottom - top) as u16,
            };
            let r = Rect { x, y, width, height };
            assert_eq!(centered_rect(percent_x, percent_y, r), window, "{percent_x} {r:?}");
        }
    }
}

#[test]
fn parts_stay_within_what_is_divided() {
    for (x, y) in [(0u16, 0u16), (3, 7), (65_000, 65_530)] {
        for width in [0u16, 1, 2, 7, 80, 65_535] {
            for height in [0u16, 1, 2, 3, 4, 5, 24, 65_535] {
                let r = Rect { x, y, width, height };
                let end = |start: u16, len: u16| (start as u32 + len as u32).min(65_535);
                let inside = |p: Rect| {
                    assert!(p.x >= r.x && end(p.x, p.width) <= end(r.x, r.width), "{p:?} {r:?}");
                    assert!(p.y >= r.y && end(p.y, p.height) <= end(r.y, r.height), "{p:?} {r:?}");
                };
                inside(centered_rect(70, 70, r));
                inside(centered_rect(100, 33, r));
                let mut app = App::new(SortMode::Size, false);
                app.enter_search();
                let areas = app.screen_areas(r);
                for p in [areas.header, areas.list, areas.search_bar.unwrap(), areas.footer] {
                    inside(p);
                    assert_eq!((p.x, p.width), (r.x, r.width));
                }
            }
        }
    }
}
