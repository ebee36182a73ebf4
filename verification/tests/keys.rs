use kondor::keys::{Action, KeyCode};
use kondor::model::AppMode;
use kondor::order::SortMode;
use kondor::path::{PathPart, ProjectPath, RawText};
use kondor::project::{Project, ProjectEntry};
use kondor::state::App;

fn entry(id: u64, name: &str, bytes: u64) -> ProjectEntry {
    let path = ProjectPath {
        raw: RawText::Bytes(name.as_bytes().to_vec()),
        parts: vec![PathPart::Normal(RawText::Bytes(name.as_bytes().to_vec()))],
    };
    ProjectEntry {
        project: Project { id, path, kind: "Cargo".to_string() },
        artifact_bytes: bytes,
        last_modified_str: String::new(),
        last_modified_secs: bytes,
        marked: false,
        cleaning: false,
        cleaned: false,
    }
}

fn app() -> App {
    let mut app = App::new(SortMode::Size, false);
    app.tick(vec![entry(0, "one", 1), entry(1, "two", 2), entry(2, "three", 3)], &Vec::new());
    app
}

fn press(app: &mut App, c: char) -> Action {
    app.handle_key(true, KeyCode::Char(c))
}

#[test]
fn only_a_press_does_something() {
    let mut app = app();
    assert!(matches!(app.handle_key(false, KeyCode::Char('q')), Action::Stay));
    assert!(matches!(app.handle_key(false, KeyCode::Down), Action::Stay));
    assert_eq!(app.list_state().selected, Some(0));
    assert!(matches!(press(&mut app, 'q'), Action::Quit));
}

#[test]
fn the_list_is_gone_through() {
    let mut app = app();
    press(&mut app, 'j');
    assert_eq!(app.list_state().selected, Some(1));
    app.handle_key(true, KeyCode::Down);
    assert_eq!(app.list_state().selected, Some(2));
    press(&mut app, 'k');
    app.handle_key(true, KeyCode::Up);
    assert_eq!(app.list_state().selected, Some(0));
    press(&mut app, 'G');
    assert_eq!(app.list_state().selected, Some(2));
    press(&mut app, 'g');
    assert_eq!(app.list_state().selected, Some(0));
}

#[test]
fn marks_and_orders_are_given() {
    let mut app = app();
    press(&mut app, ' ');
    assert!(app.entries()[0].marked);
    press(&mut app, 'a');
    assert!(app.entries().iter().all(|e| e.marked));
    press(&mut app, 'A');
    assert!(app.entries().iter().all(|e| !e.marked));
    match press(&mut app, 'd') {
        Action::Clean(jobs) => {
            assert_eq!(jobs.len(), 1);
            assert_eq!((jobs[0].project.id, jobs[0].bytes), (2, 3));
        }
        _ => panic!("an order was due"),
    }
    assert!(matches!(press(&mut app, 'd'), Action::Clean(jobs) if jobs.is_empty()));
    press(&mut app, 'a');
    match press(&mut app, 'c') {
        Action::Clean(jobs) => {
            let ids: Vec<u64> = jobs.iter().map(|j| j.project.id).collect();
            assert_eq!(ids, vec![1, 0]);
        }
        _ => panic!("orders were due"),
    }
}

#[test]
fn a_project_is_opened() {
    let mut app = app();
    press(&mut app, 'j');
    match press(&mut app, 'o') {
        Action::Open(project) => assert_eq!(project.id, 1),
        _ => panic!("a project was selected"),
    }
    let mut empty = App::new(SortMode::Size, false);
    assert!(matches!(press(&mut empty, 'o'), Action::Stay));
}

#[test]
fn a_query_is_written() {
    let mut app = app();
    press(&mut app, '/');
    assert_eq!(app.mode(), AppMode::Search);
    assert!(matches!(press(&mut app, 'q'), Action::Stay));
    app.handle_key(true, KeyCode::Backspace);
    press(&mut app, 't');
    press(&mut app, 'w');
    app.handle_key(true, KeyCode::Down);
    app.handle_key(true, KeyCode::Other);
    assert_eq!(app.search_query(), "tw");
    assert_eq!(app.visible_indices(), &vec![1]);
    app.handle_key(true, KeyCode::Enter);
    assert_eq!(app.mode(), AppMode::Normal);
    assert_eq!(app.search_query(), "tw");
    app.handle_key(true, KeyCode::Esc);
    assert_eq!(app.search_query(), "");
    assert_eq!(app.visible_indices().len(), 3);
}

#[test]
fn a_query_is_given_up() {
    let mut app = app();
    press(&mut app, '/');
    press(&mut app, 'x');
    assert!(app.visible_indices().is_empty());
    app.handle_key(true, KeyCode::Esc);
    assert_eq!(app.mode(), AppMode::Normal);
    assert_eq!(app.visible_indices().len(), 3);
}

#[test]
fn escape_without_a_query_keeps_the_row() {
    let mut app = app();
    press(&mut app, 'j');
    app.handle_key(true, KeyCode::Esc);
    assert_eq!(app.list_state().selected, Some(1));
}

#[test]
fn a_project_is_looked_at() {
    for close in [KeyCode::Esc, KeyCode::Char('i'), KeyCode::Char('q')] {
        let mut app = app();
        press(&mut app, 'i');
        assert_eq!(app.mode(), AppMode::Info);
        assert!(matches!(press(&mut app, 'd'), Action::Stay));
        press(&mut app, 'j');
        assert_eq!(app.mode(), AppMode::Info);
        assert_eq!(app.list_state().selected, Some(0));
        assert!(matches!(app.handle_key(true, close), Action::Stay));
        assert_eq!(app.mode(), AppMode::Normal);
    }
}

#[test]
fn the_order_is_changed() {
    let mut app = app();
    press(&mut app, 's');
    assert_eq!(app.sort_mode(), SortMode::Date);
    press(&mut app, 'x');
    app.handle_key(true, KeyCode::Enter);
    assert_eq!(app.sort_mode(), SortMode::Date);
}
