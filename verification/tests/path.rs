use kondor::path::{join_way, PathPart, PathPrefix, ProjectPath, RawText};
use std::path::{Component, Path};

fn bytes(text: &[u8]) -> RawText {
    RawText::Bytes(text.to_vec())
}

fn wide(text: &str) -> RawText {
    RawText::Wide(text.encode_utf16().collect())
}

fn path(text: &str) -> ProjectPath {
    let path = Path::new(text);
    let parts = path
        .components()
        .map(|c| match c {
            Component::Prefix(_) => unreachable!(),
            Component::RootDir => PathPart::RootDir,
            Component::CurDir => PathPart::CurDir,
            Component::ParentDir => PathPart::ParentDir,
            Component::Normal(n) => PathPart::Normal(bytes(n.as_encoded_bytes())),
        })
        .collect();
    ProjectPath { raw: bytes(text.as_bytes()), parts }
}

const PATHS: [&str; 12] = [
    "/home/u/p", "/home//u/./p/", "/home/u", "/", "", "p", "./p", "../p", "/a/..", "/a/../b",
    "a/b/c", "/home/ux",
];

#[test]
fn paths_compare_by_components() {
    for a in PATHS {
        for b in PATHS {
            assert_eq!(path(a).same_as(&path(b)), Path::new(a) == Path::new(b), "{a} {b}");
            assert_eq!(
                path(a).starts_with(&path(b)),
                Path::new(a).starts_with(b),
                "{a} {b}"
            );
        }
    }
}

#[test]
fn the_last_component_names_a_path() {
    for a in PATHS {
        let expected = Path::new(a)
            .file_name()
            .map(|n| n.to_string_lossy().to_string())
            .unwrap_or_else(|| a.to_string());
        assert_eq!(path(a).display_name(), expected, "{a}");
        assert_eq!(path(a).text(), a);
    }
}

#[test]
fn the_way_to_a_path_names_the_directories_above() {
    for a in PATHS {
        let mut parents: Vec<String> = Path::new(a)
            .ancestors()
            .skip(1)
            .filter_map(|p| p.file_name())
            .map(|n| n.to_string_lossy().to_string())
            .collect();
        parents.reverse();
        assert_eq!(path(a).parent_names(), parents, "{a}");
    }
    assert_eq!(path("/home/u/p").breadcrumb(), "home › u › p");
    assert_eq!(path("/p").breadcrumb(), "/p");
    assert_eq!(path("a/..").breadcrumb(), "a › a/..");
    assert_eq!(path("/").breadcrumb(), "/");
}

#[test]
fn ways_are_put_together() {
    let parents = vec!["a".to_string(), "b".to_string()];
    assert_eq!(join_way(&parents, "c", "text"), "a › b › c");
    assert_eq!(join_way(&Vec::new(), "c", "text"), "text");
}

#[test]
fn bytes_that_are_no_text_are_replaced() {
    let raw = bytes(b"/a\xffb");
    let name = bytes(b"a\xffb");
    let p = ProjectPath { raw, parts: vec![PathPart::RootDir, PathPart::Normal(name)] };
    assert_eq!(p.text(), "/a\u{fffd}b");
    assert_eq!(p.display_name(), "a\u{fffd}b");
    let q = ProjectPath {
        raw: bytes(b"/a\xfeb"),
        parts: vec![PathPart::RootDir, PathPart::Normal(bytes(b"a\xfeb"))],
    };
    assert_eq!(p.text(), q.text());
    assert!(!p.same_as(&q));
}

#[test]
fn a_copy_is_the_same_path() {
    for a in PATHS {
        let copy = path(a).clone();
        assert!(copy.same_as(&path(a)));
        assert!(copy.raw.same_as(&bytes(a.as_bytes())));
    }
    for prefix in prefixes() {
        let p = ProjectPath { raw: wide("x"), parts: vec![PathPart::Prefix(prefix)] };
        assert!(p.same_as(&p.clone()));
        assert!(!p.same_as(&path("C:")));
    }
}

fn prefixes() -> Vec<PathPrefix> {
    vec![
        PathPrefix::Verbatim(wide("a")),
        PathPrefix::VerbatimUnc(wide("a"), wide("b")),
        PathPrefix::VerbatimUnc(wide("a"), wide("c")),
        PathPrefix::VerbatimDisk(b'C'),
        PathPrefix::DeviceNs(wide("a")),
        PathPrefix::Unc(wide("a"), wide("b")),
        PathPrefix::Unc(wide("b"), wide("b")),
        PathPrefix::Disk(b'C'),
        PathPrefix::Disk(b'D'),
    ]
}

#[test]
fn prefixes_are_told_apart() {
    for (i, a) in prefixes().iter().enumerate() {
        for (j, b) in prefixes().iter().enumerate() {
            assert_eq!(a.same_as(b), i == j);
        }
    }
}

#[test]
fn a_drive_is_the_same_however_it_is_written() {
    let drive = |raw: &str, name: &str| ProjectPath {
        raw: wide(raw),
        parts: vec![
            PathPart::Prefix(PathPrefix::Disk(b'C')),
            PathPart::RootDir,
            PathPart::Normal(wide(name)),
        ],
    };
    let a = drive("c:\\work", "work");
    let b = drive("C:\\work", "work");
    assert!(a.same_as(&b) && a.starts_with(&b));
    assert_eq!((a.text().as_str(), b.text().as_str()), ("c:\\work", "C:\\work"));
    assert!(!a.same_as(&drive("C:\\Work", "Work")));
}

#[test]
fn a_lone_surrogate_gives_one_replacement() {
    let raw = RawText::Wide(vec![0x66, 0xd800, 0x6f]);
    assert_eq!(raw.text(), "f\u{fffd}o");
    let p = ProjectPath { raw: raw.clone(), parts: vec![PathPart::Normal(raw)] };
    assert_eq!((p.text().as_str(), p.display_name().as_str()), ("f\u{fffd}o", "f\u{fffd}o"));
    let units = vec![0xd834, 0xdd1e, 0x6d, 0xdd1e, 0xd834, 0xd834, 0xdd1e, 0xe9, 0xdc00, 0xd800];
    assert_eq!(
        RawText::Wide(units).text(),
        "\u{1d11e}m\u{fffd}\u{fffd}\u{1d11e}\u{e9}\u{fffd}\u{fffd}"
    );
    assert_eq!(wide("a \u{10ffff} b").text(), "a \u{10ffff} b");
    let other = RawText::Wide(vec![0x66, 0xd801, 0x6f]);
    assert!(!other.same_as(&RawText::Wide(vec![0x66, 0xd800, 0x6f])));
    assert!(!wide("a").same_as(&bytes(b"a")));
    assert_eq!(bytes(b"f\xed\xa0\x80o").text(), "f\u{fffd}\u{fffd}\u{fffd}o");
}

#[test]
fn what_leads_both_ways_is_the_same() {
    for a in PATHS {
        for b in PATHS {
            let both = path(a).starts_with(&path(b)) && path(b).starts_with(&path(a));
            assert_eq!(both, path(a).same_as(&path(b)));
        }
    }
}
