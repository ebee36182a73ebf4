use kondor::discover::{
    complaint, directory_fault, discover_project, is_ignored, list_project, prepare_directories,
    total_size, Directories, DirectoryFault, DirectoryProbe,
};
use kondor::path::{PathPart, ProjectPath, RawText};
use kondor::project::Project;

fn path(names: &[&str]) -> ProjectPath {
    let mut parts = vec![PathPart::RootDir];
    parts.extend(names.iter().map(|n| PathPart::Normal(RawText::Bytes(n.as_bytes().to_vec()))));
    ProjectPath { raw: RawText::Bytes(format!("/{}", names.join("/")).into_bytes()), parts }
}

fn project() -> Project {
    Project { id: 7, path: path(&["src", "p"]), kind: "Cargo".to_string() }
}

fn probe(path: &str, exists: Option<bool>, is_file: Option<bool>, resolved: bool) -> DirectoryProbe {
    DirectoryProbe { path: RawText::Bytes(path.as_bytes().to_vec()), exists, is_file, resolved }
}

#[test]
fn without_paths_the_current_directory_is_taken() {
    assert!(matches!(prepare_directories(&Vec::new()), Directories::Current));
}

#[test]
fn only_directories_are_taken() {
    let dirs = vec![
        probe("ok", Some(true), Some(false), true),
        probe("gone", Some(false), None, false),
        probe("unreadable", None, None, true),
        probe("file", Some(true), Some(true), true),
        probe("odd", Some(true), None, true),
        probe("unresolved", Some(true), Some(false), false),
    ];
    match prepare_directories(&dirs) {
        Directories::Current => panic!("paths were given"),
        Directories::Listed { kept, complaints } => {
            assert_eq!(kept, vec![0, 4]);
            assert_eq!(
                complaints,
                vec![
                    "error: directory gone does not exist",
                    "error: directory unreadable does not exist",
                    "error: file supplied but directory expected: file",
                ]
            );
        }
    }
}

#[test]
fn a_list_without_a_directory_stays_a_list() {
    match prepare_directories(&vec![probe("x", Some(false), None, false)]) {
        Directories::Current => panic!("a path was given"),
        Directories::Listed { kept, complaints } => {
            assert!(kept.is_empty());
            assert_eq!(complaints.len(), 1);
        }
    }
}

#[test]
fn faults_are_told_apart() {
    assert_eq!(directory_fault(None, Some(true)), Some(DirectoryFault::Missing));
    assert_eq!(directory_fault(Some(true), Some(true)), Some(DirectoryFault::File));
    assert_eq!(directory_fault(Some(true), Some(false)), None);
    assert_eq!(
        complaint(DirectoryFault::File, "a"),
        "error: file supplied but directory expected: a"
    );
}

#[test]
fn ignored_directories_are_passed_over_with_all_below() {
    let ignored = vec![path(&["tmp"]), path(&["home", "u", "old"])];
    assert!(is_ignored(&path(&["tmp"]), &ignored));
    assert!(is_ignored(&path(&["home", "u", "old", "a", "b"]), &ignored));
    assert!(!is_ignored(&path(&["home", "u", "older"]), &ignored));
    assert!(!is_ignored(&path(&["home"]), &ignored));
    assert!(!is_ignored(&path(&["tmp"]), &Vec::new()));
}

#[test]
fn a_project_is_listed_with_its_sum_and_its_age() {
    let entry = discover_project(project(), &vec![1000, 0, 24], Some(121), 60).unwrap();
    assert_eq!(entry.artifact_bytes, 1024);
    assert_eq!(entry.last_modified_secs, 121);
    assert_eq!(entry.last_modified_str, "2 minutes ago");
    assert_eq!(entry.project.id, 7);
    assert!(!entry.marked && !entry.cleaning && !entry.cleaned);
}

#[test]
fn a_project_without_artifacts_is_not_listed() {
    assert!(discover_project(project(), &vec![0, 0], Some(121), 0).is_none());
    assert!(discover_project(project(), &Vec::new(), Some(121), 0).is_none());
}

#[test]
fn a_young_project_is_not_listed() {
    assert!(discover_project(project(), &vec![1], Some(59), 60).is_none());
    assert!(discover_project(project(), &vec![1], Some(60), 60).is_some());
}

#[test]
fn an_unknown_age_counts_as_none() {
    let entry = discover_project(project(), &vec![1], None, 0).unwrap();
    assert_eq!(entry.last_modified_secs, 0);
    assert_eq!(entry.last_modified_str, "");
    assert!(discover_project(project(), &vec![1], None, 1).is_none());
}

#[test]
fn asking_for_older_projects_lists_no_other_ones() {
    for age in [0u64, 10, 59, 60, 61] {
        if let Some(old) = discover_project(project(), &vec![5], Some(60), age) {
            let young = discover_project(project(), &vec![5], Some(60), 0).unwrap();
            assert_eq!(old.artifact_bytes, young.artifact_bytes);
            assert_eq!(old.last_modified_str, young.last_modified_str);
        } else {
            assert!(age > 60);
        }
    }
}

#[test]
fn the_age_comes_with_its_words() {
    let entry = list_project(project(), 3, 9, "nine".to_string(), 9).unwrap();
    assert_eq!((entry.artifact_bytes, entry.last_modified_secs), (3, 9));
    assert_eq!(entry.last_modified_str, "nine");
    assert!(list_project(project(), 3, 9, "nine".to_string(), 10).is_none());
}

#[test]
fn sums_beyond_the_largest_number_are_told() {
    assert_eq!(total_size(&vec![u64::MAX, 0]), Some(u64::MAX));
    assert_eq!(total_size(&vec![u64::MAX, 1]), None);
    assert_eq!(total_size(&Vec::new()), Some(0));
}
