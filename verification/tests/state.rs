use kondor::model::{AppMode, ListState};
use kondor::order::SortMode;
use kondor::path::{PathPart, ProjectPath, RawText};
use kondor::project::{is_hit, search_term, Project, ProjectEntry};
use kondor::state::{App, CleanDone};

fn path(name: &str) -> ProjectPath {
    ProjectPath {
        raw: RawText::Bytes(format!("/work/{name}").into_bytes()),
        parts: vec![
            PathPart::RootDir,
            PathPart::Normal(RawText::Bytes(b"work".to_vec())),
            PathPart::Normal(RawText::Bytes(name.as_bytes().to_vec())),
        ],
    }
}

fn entry(id: u64, name: &str, kind: &str, bytes: u64, secs: u64) -> ProjectEntry {
    ProjectEntry {
        project: Project { id, path: path(name), kind: kind.to_string() },
        artifact_bytes: bytes,
        last_modified_str: format!("{secs} s"),
        last_modified_secs: secs,
        marked: false,
        cleaning: false,
        cleaned: false,
    }
}

fn sample() -> Vec<ProjectEntry> {
    vec![
        entry(0, "alpha", "Cargo", 10, 300),
        entry(1, "beta", "Node", 30, 100),
        entry(2, "gamma", "Cargo", 20, 200),
        entry(3, "delta", "Unity", 30, 400),
    ]
}

fn app(dry_run: bool) -> App {
    let mut app = App::new(SortMode::Size, dry_run);
    app.tick(sample(), &Vec::new());
    app
}

fn ids(app: &App) -> Vec<u64> {
    app.entries().iter().map(|e| e.project.id).collect()
}

fn selected(app: &App) -> Option<u64> {
    app.selected_entry().map(|e| e.project.id)
}

fn done(name: &str, bytes: u64) -> Vec<CleanDone> {
    vec![CleanDone { path: path(name), bytes }]
}

#[test]
fn the_program_starts_empty() {
    let app = App::new(SortMode::Date, true);
    assert!(app.entries().is_empty() && app.visible_indices().is_empty());
    assert_eq!(app.list_state(), ListState { offset: 0, selected: None });
    assert_eq!(app.sort_mode(), SortMode::Date);
    assert!(app.dry_run() && app.scanning());
    assert_eq!((app.total_bytes(), app.cleaned_bytes(), app.cleaned_count()), (0, 0, 0));
    assert_eq!(app.mode(), AppMode::Normal);
    assert_eq!(app.search_query(), "");
    assert!(app.selected_entry_idx().is_none());
}

#[test]
fn projects_come_in_order_of_size() {
    let app = app(false);
    assert_eq!(ids(&app), vec![1, 3, 2, 0]);
    assert_eq!(app.visible_indices(), &vec![0, 1, 2, 3]);
    assert_eq!(selected(&app), Some(1));
    assert_eq!(app.total_bytes(), 90);
    assert!(app.scanning());
}

#[test]
fn the_other_order_goes_by_age() {
    let mut app = app(false);
    app.toggle_sort();
    assert_eq!(app.sort_mode(), SortMode::Date);
    assert_eq!(ids(&app), vec![3, 0, 2, 1]);
    assert_eq!(selected(&app), Some(1));
    assert_eq!(app.list_state().selected, Some(3));
    app.toggle_sort();
    assert_eq!(app.sort_mode(), SortMode::Size);
    assert_eq!(ids(&app), vec![3, 1, 2, 0]);
    assert_eq!(selected(&app), Some(1));
}

#[test]
fn ordering_is_stable_and_changes_nothing_twice() {
    let mut app = App::new(SortMode::Size, false);
    let same: Vec<ProjectEntry> = (0..20).map(|i| entry(i, &format!("p{i}"), "k", i % 3, i)).collect();
    app.tick(same, &Vec::new());
    let first = ids(&app);
    let mut expected: Vec<u64> = (0..20).collect();
    expected.sort_by(|a, b| (b % 3).cmp(&(a % 3)));
    assert_eq!(first, expected);
    app.sort_entries();
    assert_eq!(ids(&app), first);
}

#[test]
fn the_selection_moves_with_its_project() {
    let mut app = app(false);
    app.move_down();
    app.move_down();
    assert_eq!(selected(&app), Some(2));
    app.tick(vec![entry(4, "big", "k", 99, 0), entry(5, "small", "k", 1, 0)], &Vec::new());
    assert_eq!(ids(&app), vec![4, 1, 3, 2, 0, 5]);
    assert_eq!(selected(&app), Some(2));
    assert_eq!(app.list_state().selected, Some(3));
    assert_eq!(app.total_bytes(), 190);
}

#[test]
fn the_row_goes_up_and_down_within_the_list() {
    let mut app = app(false);
    app.move_up();
    assert_eq!(app.list_state().selected, Some(0));
    app.move_down();
    app.move_down();
    app.move_up();
    assert_eq!(app.list_state().selected, Some(1));
    app.select_last();
    app.move_down();
    assert_eq!(app.list_state().selected, Some(3));
    app.select_first();
    assert_eq!(app.list_state().selected, Some(0));
    let mut empty = App::new(SortMode::Size, false);
    empty.move_down();
    empty.move_up();
    empty.select_first();
    empty.select_last();
    assert_eq!(empty.list_state().selected, None);
}

#[test]
fn a_search_shows_what_holds_it() {
    let mut app = app(false);
    for c in " CARGO ".chars() {
        app.append_search(c);
    }
    assert_eq!(app.search_query(), " CARGO ");
    assert_eq!(app.visible_indices(), &vec![2, 3]);
    assert_eq!(selected(&app), Some(2));
    app.cancel_search();
    assert_eq!(app.search_query(), "");
    assert_eq!(app.visible_indices(), &vec![0, 1, 2, 3]);
    app.append_search('W');
    app.append_search('O');
    app.append_search('R');
    assert_eq!(app.visible_indices().len(), 4);
    app.cancel_search();
    app.append_search('T');
    app.append_search('A');
    assert_eq!(app.visible_indices(), &vec![0, 1]);
}

#[test]
fn a_search_without_a_hit_selects_nothing() {
    let mut app = app(false);
    app.set_list_state(ListState { offset: 2, selected: Some(3) });
    app.append_search('~');
    assert!(app.visible_indices().is_empty());
    assert_eq!(app.list_state(), ListState { offset: 0, selected: None });
    assert!(app.selected_entry().is_none());
    app.open_info();
    assert_eq!(app.mode(), AppMode::Normal);
    app.toggle_mark();
    assert!(app.clean_selected().is_none());
    assert!(app.open_selected().is_none());
    app.backspace_search();
    assert_eq!(app.visible_indices().len(), 4);
    assert_eq!(app.list_state().selected, Some(0));
}

#[test]
fn taking_a_letter_back_brings_the_rows_back() {
    let mut app = app(false);
    app.append_search('a');
    let rows = app.visible_indices().clone();
    app.append_search('m');
    assert_eq!(app.visible_indices(), &vec![2]);
    app.backspace_search();
    assert_eq!(app.visible_indices(), &rows);
    assert_eq!(app.search_query(), "a");
    app.backspace_search();
    app.backspace_search();
    assert_eq!(app.search_query(), "");
}

#[test]
fn a_query_stays_when_it_is_confirmed() {
    let mut app = app(false);
    app.enter_search();
    assert_eq!(app.mode(), AppMode::Search);
    app.append_search('b');
    app.confirm_search();
    assert_eq!(app.mode(), AppMode::Normal);
    assert_eq!(app.search_query(), "b");
    assert_eq!(app.visible_indices(), &vec![0]);
}

#[test]
fn a_row_beyond_the_end_gives_way_to_the_last() {
    let mut app = app(false);
    app.set_list_state(ListState { offset: 1, selected: Some(9) });
    app.update_visible();
    assert_eq!(app.list_state(), ListState { offset: 1, selected: Some(3) });
}

#[test]
fn new_projects_show_only_where_the_query_shows_them() {
    let mut app = app(false);
    app.append_search('z');
    app.tick(vec![entry(4, "zeta", "k", 50, 0), entry(5, "eta", "k", 60, 0)], &Vec::new());
    assert_eq!(ids(&app), vec![5, 4, 1, 3, 2, 0]);
    assert_eq!(app.visible_indices(), &vec![1]);
    assert_eq!(selected(&app), Some(4));
}

#[test]
fn marks_turn_over() {
    let mut app = app(false);
    app.toggle_mark();
    assert!(app.entries()[0].marked);
    app.toggle_mark();
    assert!(!app.entries()[0].marked);
}

#[test]
fn marking_all_marks_what_is_shown() {
    let mut app = app(false);
    app.append_search('u');
    app.mark_all();
    app.cancel_search();
    let marked: Vec<u64> = app
        .entries()
        .iter()
        .filter(|e| e.marked)
        .map(|e| e.project.id)
        .collect();
    assert_eq!(marked, vec![3]);
    app.mark_all();
    assert!(app.entries().iter().all(|e| e.marked));
    app.unmark_all();
    assert!(app.entries().iter().all(|e| !e.marked));
}

#[test]
fn the_selected_project_is_cleaned_once() {
    let mut app = app(false);
    let job = app.clean_selected().unwrap();
    assert_eq!((job.project.id, job.bytes), (1, 30));
    assert!(app.entries()[0].cleaning && !app.entries()[0].marked);
    assert!(app.clean_selected().is_none());
    app.toggle_mark();
    app.mark_all();
    assert!(!app.entries()[0].marked);
    app.tick(Vec::new(), &done("beta", 30));
    let first = &app.entries()[0];
    assert!(first.cleaned && !first.cleaning && !first.marked);
    assert_eq!(first.artifact_bytes, 0);
    assert_eq!((app.cleaned_bytes(), app.cleaned_count()), (30, 1));
    assert!(app.clean_selected().is_none());
    assert!(app.scanning());
}

#[test]
fn marked_projects_are_cleaned_in_order() {
    let mut app = app(false);
    app.move_down();
    app.toggle_mark();
    app.select_last();
    app.toggle_mark();
    let jobs = app.clean_marked();
    let given: Vec<(u64, u64)> = jobs.iter().map(|j| (j.project.id, j.bytes)).collect();
    assert_eq!(given, vec![(3, 30), (0, 10)]);
    assert!(app.clean_marked().is_empty());
    let cleaning: Vec<bool> = app.entries().iter().map(|e| e.cleaning).collect();
    assert_eq!(cleaning, vec![false, true, false, true]);
}

#[test]
fn a_dry_run_cleans_nothing() {
    let mut app = app(true);
    app.mark_all();
    assert!(app.clean_marked().is_empty());
    assert!(app.clean_selected().is_none());
    assert!(app.entries().iter().all(|e| e.marked && !e.cleaning));
}

#[test]
fn the_scan_is_over_once_all_is_cleaned() {
    let mut app = app(false);
    app.mark_all();
    let jobs = app.clean_marked();
    let words: Vec<CleanDone> = jobs
        .into_iter()
        .map(|j| CleanDone { path: j.project.path, bytes: j.bytes })
        .collect();
    app.tick(Vec::new(), &words);
    assert!(!app.scanning());
    assert_eq!((app.cleaned_bytes(), app.cleaned_count()), (90, 4));
    app.tick(vec![entry(9, "late", "k", 5, 0)], &Vec::new());
    assert!(!app.scanning());
}

#[test]
fn an_empty_list_is_never_all_cleaned() {
    let mut app = App::new(SortMode::Size, false);
    app.tick(Vec::new(), &Vec::new());
    assert!(app.scanning());
}

#[test]
fn word_of_an_unknown_project_counts_for_nothing() {
    let mut app = app(false);
    app.tick(Vec::new(), &done("nowhere", 1000));
    assert_eq!((app.cleaned_bytes(), app.cleaned_count()), (0, 0));
}

#[test]
fn of_two_projects_with_one_path_the_first_is_settled() {
    let mut app = App::new(SortMode::Size, false);
    app.tick(
        vec![entry(0, "twin", "k", 5, 0), entry(1, "twin", "k", 7, 0)],
        &Vec::new(),
    );
    assert_eq!(ids(&app), vec![1, 0]);
    assert_eq!(app.spawn_clean(1).unwrap().bytes, 5);
    app.tick(Vec::new(), &done("twin", 5));
    assert!(app.entries()[0].cleaned && !app.entries()[0].cleaning);
    assert!(app.entries()[1].cleaning && !app.entries()[1].cleaned);
    assert_eq!(app.cleaned_bytes(), 5);
}

#[test]
fn a_position_that_is_not_there_is_not_cleaned() {
    let mut app = app(false);
    assert!(app.spawn_clean(4).is_none());
}

#[test]
fn sums_that_do_not_fit_are_told() {
    let mut app = app(false);
    assert!(app.tick_fits(&vec![entry(9, "x", "k", u64::MAX - 90, 0)], &Vec::new()));
    assert!(!app.tick_fits(&vec![entry(9, "x", "k", u64::MAX - 89, 0)], &Vec::new()));
    app.tick(Vec::new(), &done("beta", 10));
    assert!(app.tick_fits(&Vec::new(), &done("alpha", u64::MAX - 10)));
    assert!(!app.tick_fits(&Vec::new(), &done("alpha", u64::MAX - 9)));
    assert!(app.tick_fits(&Vec::new(), &done("nowhere", u64::MAX)));
    assert!(!app.tick_fits(
        &vec![entry(9, "x", "k", 0, 0)],
        &done("x", u64::MAX)
    ));
}

#[test]
fn the_selected_project_is_opened_and_looked_at() {
    let mut app = app(false);
    assert_eq!(app.open_selected().unwrap().id, 1);
    app.open_info();
    assert_eq!(app.mode(), AppMode::Info);
    app.close_modal();
    assert_eq!(app.mode(), AppMode::Normal);
}

#[test]
fn queries_are_lowered_and_trimmed() {
    assert_eq!(search_term("  ÄB c\t"), "äb c");
    assert_eq!(search_term(" \n"), "");
    assert!(is_hit("", "p", "n", "k"));
    assert!(is_hit("at", "path", "n", "k"));
    assert!(is_hit("am", "p", "name", "k"));
    assert!(is_hit("in", "p", "n", "kind"));
    assert!(!is_hit("x", "path", "name", "kind"));
}

#[test]
fn selecting_no_row_goes_back_to_the_top() {
    let mut state = ListState { offset: 5, selected: Some(7) };
    state.select(Some(6));
    assert_eq!(state, ListState { offset: 5, selected: Some(6) });
    state.select(None);
    assert_eq!(state, ListState { offset: 0, selected: None });
}

#[test]
fn no_more_is_freed_than_was_found() {
    let mut app = app(false);
    let mut pending: Vec<CleanDone> = Vec::new();
    for step in 0..12u64 {
        match step % 4 {
            0 => app.toggle_mark(),
            1 => pending.extend(
                app.clean_marked()
                    .into_iter()
                    .map(|j| CleanDone { path: j.project.path, bytes: j.bytes }),
            ),
            2 => app.move_down(),
            _ => {
                app.tick(vec![entry(10 + step, &format!("n{step}"), "k", step, step)], &pending);
                pending.clear();
            }
        }
        assert!(app.header_fits());
        assert!(app.cleaned_bytes() <= app.total_bytes());
        assert!(app.list_state().selected.unwrap() < app.visible_indices().len());
    }
}

#[test]
fn of_two_orders_to_mark_the_last_counts() {
    let mut app = app(false);
    app.mark_all();
    app.unmark_all();
    assert!(app.entries().iter().all(|e| !e.marked));
    app.unmark_all();
    app.mark_all();
    app.mark_all();
    assert!(app.entries().iter().all(|e| e.marked));
}

#[test]
fn drawing_the_list_keeps_the_selected_row() {
    let mut app = app(false);
    app.move_down();
    let row = app.list_state().selected;
    app.set_list_state(ListState { offset: 1, selected: row });
    assert_eq!(app.list_state(), ListState { offset: 1, selected: Some(1) });
    app.move_down();
    assert_eq!(app.list_state(), ListState { offset: 1, selected: Some(2) });
    assert_eq!(app.visible_indices().len(), 4);
}

#[test]
fn typing_on_only_narrows_the_rows() {
    for query in ["CARGO", "a", "  be", "no such thing", "/Work/ D", "x\ty"] {
        let mut app = app(false);
        for c in query.chars() {
            let before = app.visible_indices().clone();
            app.append_search(c);
            let after = app.visible_indices().clone();
            let kept: Vec<usize> = before.into_iter().filter(|i| after.contains(i)).collect();
            assert_eq!(after, kept, "{query}");
            let first = if after.is_empty() { None } else { Some(0) };
            assert_eq!(app.list_state().selected, first);
        }
    }
}

#[test]
fn ascii_is_lowered_letter_by_letter() {
    let all: String = (0u8..128).map(|b| b as char).collect();
    assert_eq!(search_term(&all), all.to_ascii_lowercase().trim());
    assert_eq!(search_term("AZ[@`az"), "az[@`az");
}

#[test]
fn changing_the_order_twice_restores_the_list() {
    let mut app = App::new(SortMode::Date, false);
    app.tick(sample(), &Vec::new());
    app.move_down();
    app.set_list_state(ListState { offset: 1, selected: app.list_state().selected });
    let (before, rows, state) = (ids(&app), app.visible_indices().clone(), app.list_state());
    app.toggle_sort();
    assert_ne!(ids(&app), before);
    app.toggle_sort();
    assert_eq!((ids(&app), app.visible_indices().clone(), app.list_state()), (before, rows, state));
    app.sort_entries();
    assert_eq!(app.list_state(), state);
}

#[test]
fn the_account_is_exact() {
    let mut app = app(false);
    app.mark_all();
    let jobs = app.clean_marked();
    for job in jobs {
        let finished = vec![CleanDone { path: job.project.path, bytes: job.bytes }];
        app.tick(Vec::new(), &finished);
        let left: u64 = app.entries().iter().map(|e| e.artifact_bytes).sum();
        assert_eq!(app.cleaned_bytes() + left, app.total_bytes());
    }
    assert_eq!((app.cleaned_count(), app.cleaned_bytes()), (4, 90));
}

#[test]
fn kinds_that_are_read_anew_show_with_the_next_search() {
    let mut app = app(false);
    for c in "swift".chars() {
        app.append_search(c);
    }
    assert!(app.visible_indices().is_empty());
    let before: Vec<String> = app.entries().iter().map(|e| e.project.kind.clone()).collect();
    app.set_kinds(&before);
    assert_eq!(app.entries()[0].project.kind, before[0]);
    app.set_kinds(&vec!["Cargo".to_string(), "Swift".to_string()]);
    let kinds: Vec<&str> = app.entries().iter().map(|e| e.project.kind.as_str()).collect();
    assert_eq!(kinds, vec!["Cargo", "Swift", before[2].as_str(), before[3].as_str()]);
    assert!(app.visible_indices().is_empty());
    app.update_visible();
    assert_eq!(app.visible_indices(), &vec![1]);
}

#[test]
fn long_lists_are_ordered() {
    let mut app = App::new(SortMode::Size, false);
    let entries: Vec<ProjectEntry> =
        (0..500u64).map(|i| entry(i, &format!("p{i}"), "Cargo", i * 37 % 101, i)).collect();
    let mut expected: Vec<(u64, u64)> = (0..500u64).map(|i| (i, i * 37 % 101)).collect();
    expected.sort_by(|a, b| b.1.cmp(&a.1));
    app.tick(entries, &Vec::new());
    assert_eq!(ids(&app), expected.iter().map(|e| e.0).collect::<Vec<u64>>());
}
