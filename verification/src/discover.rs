//! Finding projects: where to look, what to pass over and what to list.

use vstd::prelude::*;
use vstd::string::*;

use crate::outside::{elapsed_text, print_elapsed};
use crate::path::{PathModel, ProjectPath, RawText};
use crate::project::{EntryModel, Project, ProjectEntry, ProjectModel};
use crate::text::texts;

verus! {

/// What the file system says of a path that was given as a directory.
pub struct DirectoryProbe {
    /// What the path is written as.
    pub path: RawText,
    /// Whether it exists, where that can be told.
    pub exists: Option<bool>,
    /// Whether it is a file, where that can be told.
    pub is_file: Option<bool>,
    /// Whether its absolute form is known.
    pub resolved: bool,
}

/// What speaks against a path that was given as a directory.
#[derive(Clone, Copy, Debug, PartialEq, Eq, Structural)]
pub enum DirectoryFault {
    Missing,
    File,
}

/// Where to look for projects.
pub enum Directories {
    /// In the current directory.
    Current,
    /// In those of the given paths whose positions are listed; the rest is
    /// complained about, where there is something to say.
    Listed { kept: Vec<usize>, complaints: Vec<String> },
}

/// What speaks against a path: it does not exist, or it is a file.
pub open spec fn fault_of(exists: Option<bool>, is_file: Option<bool>) -> Option<DirectoryFault> {
    if exists != Some(true) {
        Some(DirectoryFault::Missing)
    } else if is_file == Some(true) {
        Some(DirectoryFault::File)
    } else {
        None
    }
}

/// A fault in words.
pub open spec fn complaint_text(fault: DirectoryFault, path: Seq<char>) -> Seq<char> {
    match fault {
        DirectoryFault::Missing => "error: directory "@ + path + " does not exist"@,
        DirectoryFault::File => "error: file supplied but directory expected: "@ + path,
    }
}

/// What speaks against a path.
pub fn directory_fault(exists: Option<bool>, is_file: Option<bool>) -> (r: Option<DirectoryFault>)
    ensures
        r == fault_of(exists, is_file),
{
    let there: bool = match exists {
        Some(exists) => exists,
        None => false,
    };
    if !there {
        return Some(DirectoryFault::Missing);
    }
    match is_file {
        Some(true) => Some(DirectoryFault::File),
        _ => None,
    }
}

/// A fault in words.
pub fn complaint(fault: DirectoryFault, path: &str) -> (r: String)
    ensures
        r@ == complaint_text(fault, path@),
{
    match fault {
        DirectoryFault::Missing => "error: directory ".to_owned().concat(path).concat(
            " does not exist",
        ),
        DirectoryFault::File => "error: file supplied but directory expected: ".to_owned().concat(
            path,
        ),
    }
}

impl DirectoryProbe {
    /// What speaks against the path.
    pub open spec fn fault(self) -> Option<DirectoryFault> {
        fault_of(self.exists, self.is_file)
    }

    /// The path is looked into.
    pub open spec fn is_kept(self) -> bool {
        self.fault() is None && self.resolved
    }
}

/// The positions, among the first `n`, of the paths that are looked into.
pub open spec fn kept_among(dirs: Seq<DirectoryProbe>, n: nat) -> Seq<usize>
    decreases n,
{
    if n == 0 {
        seq![]
    } else if dirs[n - 1].is_kept() {
        kept_among(dirs, (n - 1) as nat).push((n - 1) as usize)
    } else {
        kept_among(dirs, (n - 1) as nat)
    }
}

/// The complaints about the first `n` paths.
pub open spec fn complaints_among(dirs: Seq<DirectoryProbe>, n: nat) -> Seq<Seq<char>>
    decreases n,
{
    if n == 0 {
        seq![]
    } else {
        match dirs[n - 1].fault() {
            Some(fault) => complaints_among(dirs, (n - 1) as nat).push(
                complaint_text(fault, dirs[n - 1].path@.text()),
            ),
            None => complaints_among(dirs, (n - 1) as nat),
        }
    }
}

/// Chooses where to look: in the current directory where no path is given, else
/// in the paths that are directories.
pub fn prepare_directories(dirs: &Vec<DirectoryProbe>) -> (r: Directories)
    ensures
        r is Current <==> dirs@.len() == 0,
        r matches Directories::Listed { kept, complaints } ==> {
            &&& kept@ == kept_among(dirs@, dirs@.len())
            &&& texts(complaints@) == complaints_among(dirs@, dirs@.len())
        },
{
    if dirs.is_empty() {
        return Directories::Current;
    }
    let mut kept: Vec<usize> = Vec::new();
    let mut complaints: Vec<String> = Vec::new();
    let mut i: usize = 0;
    assert(texts(complaints@) == complaints_among(dirs@, 0));
    while i < dirs.len()
        invariant
            i <= dirs.len(),
            kept@ == kept_among(dirs@, i as nat),
            texts(complaints@) == complaints_among(dirs@, i as nat),
        decreases dirs.len() - i,
    {
        match directory_fault(dirs[i].exists, dirs[i].is_file) {
            Some(fault) => {
                let ghost before = texts(complaints@);
                let path = dirs[i].path.text();
                let words = complaint(fault, path.as_str());
                complaints.push(words);
                assert(texts(complaints@) == before.push(words@));
            },
            None => {
                if dirs[i].resolved {
                    kept.push(i);
                }
            },
        }
        i = i + 1;
    }
    Directories::Listed { kept, complaints }
}

/// A path leads into one of the directories that are passed over.
pub open spec fn ignored(path: PathModel, dirs: Seq<ProjectPath>) -> bool {
    exists|i: int| 0 <= i < dirs.len() && path.under((#[trigger] dirs[i])@)
}

/// Whether a path leads into one of the directories that are passed over.
pub fn is_ignored(path: &ProjectPath, ignored_dirs: &Vec<ProjectPath>) -> (r: bool)
    ensures
        r == ignored(path@, ignored_dirs@),
{
    let mut i: usize = 0;
    while i < ignored_dirs.len()
        invariant
            i <= ignored_dirs.len(),
            forall|j: int| 0 <= j < i ==> !path@.under((#[trigger] ignored_dirs@[j])@),
        decreases ignored_dirs.len() - i,
    {
        if path.starts_with(&ignored_dirs[i]) {
            return true;
        }
        i = i + 1;
    }
    false
}

/// The sum of sizes.
pub open spec fn sum_of(sizes: Seq<u64>) -> nat
    decreases sizes.len(),
{
    if sizes.len() == 0 {
        0
    } else {
        sum_of(sizes.drop_last()) + sizes.last() as nat
    }
}

/// Some of the sizes sum up to no more than all of them.
proof fn lemma_sum_of_take(sizes: Seq<u64>, n: int)
    requires
        0 <= n <= sizes.len(),
    ensures
        sum_of(sizes.take(n)) <= sum_of(sizes),
    decreases sizes.len() - n,
{
    if n == sizes.len() {
        assert(sizes.take(n) == sizes);
    } else {
        assert(sizes.take(n + 1).drop_last() == sizes.take(n));
        lemma_sum_of_take(sizes, n + 1);
    }
}

/// The sum of sizes, where it fits in 64 bits.
pub fn total_size(sizes: &Vec<u64>) -> (r: Option<u64>)
    ensures
        r is Some <==> sum_of(sizes@) <= u64::MAX,
        r is Some ==> r.unwrap() == sum_of(sizes@),
{
    let mut total: u64 = 0;
    let mut i: usize = 0;
    while i < sizes.len()
        invariant
            i <= sizes.len(),
            total == sum_of(sizes@.take(i as int)),
        decreases sizes.len() - i,
    {
        proof {
            assert(sizes@.take(i + 1).drop_last() == sizes@.take(i as int));
            lemma_sum_of_take(sizes@, i + 1);
        }
        if sizes[i] > u64::MAX - total {
            return None;
        }
        total = total + sizes[i];
        i = i + 1;
    }
    assert(sizes@.take(i as int) == sizes@);
    Some(total)
}

/// The entry of a project that takes so many bytes and changed so many seconds
/// ago: none where there is nothing to free or the project is too young.
pub open spec fn listed(
    project: ProjectModel,
    artifact_bytes: u64,
    secs: u64,
    words: Seq<char>,
    min_age: u64,
) -> Option<EntryModel> {
    if artifact_bytes == 0 || secs < min_age {
        None
    } else {
        Some(
            EntryModel {
                project,
                artifact_bytes,
                last_modified_str: words,
                last_modified_secs: secs,
                marked: false,
                cleaning: false,
                cleaned: false,
            },
        )
    }
}

/// An entry that may be missing, as a mathematical value.
pub open spec fn entry_model(entry: Option<ProjectEntry>) -> Option<EntryModel> {
    match entry {
        Some(entry) => Some(entry@),
        None => None,
    }
}

/// The entry of a project, where there is something to free and the project is
/// old enough.
pub fn list_project(
    project: Project,
    artifact_bytes: u64,
    last_modified_secs: u64,
    last_modified_str: String,
    project_min_age: u64,
) -> (r: Option<ProjectEntry>)
    ensures
        entry_model(r) == listed(
            project@,
            artifact_bytes,
            last_modified_secs,
            last_modified_str@,
            project_min_age,
        ),
{
    if artifact_bytes == 0 || last_modified_secs < project_min_age {
        return None;
    }
    Some(
        ProjectEntry {
            project,
            artifact_bytes,
            last_modified_str,
            last_modified_secs,
            marked: false,
            cleaning: false,
            cleaned: false,
        },
    )
}

/// The entry of a project whose artifact directories have the given sizes and
/// changed the given seconds ago, where that is known; an unknown age counts as
/// none.
pub open spec fn discovered(
    project: ProjectModel,
    dir_sizes: Seq<u64>,
    elapsed: Option<u64>,
    min_age: u64,
) -> Option<EntryModel> {
    let bytes = sum_of(dir_sizes) as u64;
    match elapsed {
        Some(secs) => listed(project, bytes, secs, elapsed_text(secs), min_age),
        None => listed(project, bytes, 0, seq![], min_age),
    }
}

/// The entry of a project that was found.
pub fn discover_project(
    project: Project,
    dir_sizes: &Vec<u64>,
    elapsed: Option<u64>,
    project_min_age: u64,
) -> (r: Option<ProjectEntry>)
    requires
        sum_of(dir_sizes@) <= u64::MAX,
    ensures
        entry_model(r) == discovered(project@, dir_sizes@, elapsed, project_min_age),
        r is Some && elapsed is Some ==> r.unwrap()@.last_modified_str.len() > 0,
        r is Some <==> sum_of(dir_sizes@) > 0 && match elapsed {
            Some(secs) => secs >= project_min_age,
            None => project_min_age == 0,
        },
        r is Some ==> {
            &&& r.unwrap()@.project == project@
            &&& r.unwrap()@.artifact_bytes == sum_of(dir_sizes@)
            &&& match elapsed {
                Some(secs) => r.unwrap()@.last_modified_secs == secs
                    && r.unwrap()@.last_modified_str == elapsed_text(secs),
                None => r.unwrap()@.last_modified_secs == 0
                    && r.unwrap()@.last_modified_str.len() == 0,
            }
            &&& !r.unwrap()@.marked && !r.unwrap()@.cleaning && !r.unwrap()@.cleaned
        },
{
    let artifact_bytes: u64 = match total_size(dir_sizes) {
        Some(total) => total,
        None => 0,
    };
    match elapsed {
        Some(secs) => {
            let words = print_elapsed(secs);
            list_project(project, artifact_bytes, secs, words, project_min_age)
        },
        None => list_project(project, artifact_bytes, 0, String::new(), project_min_age),
    }
}

/// The paths that are looked into are those that exist, are no files and could
/// be resolved, in the order in which they were given.
pub proof fn law_directories_are_kept(dirs: Seq<DirectoryProbe>, n: nat)
    requires
        n <= dirs.len() <= usize::MAX,
    ensures
        forall|k: int|
            0 <= k < kept_among(dirs, n).len() ==> {
                &&& (#[trigger] kept_among(dirs, n)[k]) < n
                &&& dirs[kept_among(dirs, n)[k] as int].is_kept()
            },
        forall|j: int, k: int|
            0 <= j < k < kept_among(dirs, n).len() ==> kept_among(dirs, n)[j] < kept_among(
                dirs,
                n,
            )[k],
        forall|i: int|
            0 <= i < n && (#[trigger] dirs[i]).is_kept() ==> kept_among(dirs, n).contains(
                i as usize,
            ),
    decreases n,
{
    if n > 0 {
        let before = kept_among(dirs, (n - 1) as nat);
        let now = kept_among(dirs, n);
        law_directories_are_kept(dirs, (n - 1) as nat);
        assert forall|i: int| 0 <= i < n && (#[trigger] dirs[i]).is_kept() implies now.contains(
            i as usize,
        ) by {
            if i < n - 1 {
                let k = choose|k: int| 0 <= k < before.len() && before[k] == i as usize;
                assert(now[k] == i as usize);
            } else {
                assert(now[before.len() as int] == i as usize);
            }
        }
    }
}

/// What is listed has something to free, is old enough, and nothing has been
/// done with it.
pub proof fn law_what_is_listed(
    project: ProjectModel,
    dir_sizes: Seq<u64>,
    elapsed: Option<u64>,
    min_age: u64,
)
    requires
        sum_of(dir_sizes) <= u64::MAX,
        discovered(project, dir_sizes, elapsed, min_age) is Some,
    ensures
        ({
            let entry = discovered(project, dir_sizes, elapsed, min_age).unwrap();
            &&& entry.project == project
            &&& entry.artifact_bytes > 0
            &&& entry.last_modified_secs >= min_age
            &&& entry.fresh()
        }),
        elapsed is None ==> min_age == 0,
{
}

/// Asking for older projects lists exactly those that are listed anyway and are
/// that old, with the same entries.
pub proof fn law_older_lists_less(
    project: ProjectModel,
    dir_sizes: Seq<u64>,
    elapsed: Option<u64>,
    min_age: u64,
    older: u64,
)
    requires
        min_age <= older,
    ensures
        discovered(project, dir_sizes, elapsed, older) == match discovered(
            project,
            dir_sizes,
            elapsed,
            min_age,
        ) {
            Some(entry) => if entry.last_modified_secs >= older {
                Some(entry)
            } else {
                None
            },
            None => None,
        },
{
}

/// What leads into a directory that is passed over is passed over, however deep.
pub proof fn law_ignored_goes_deep(path: PathModel, above: PathModel, dirs: Seq<ProjectPath>)
    requires
        ignored(above, dirs),
        path.under(above),
    ensures
        ignored(path, dirs),
{
    let i = choose|i: int| 0 <= i < dirs.len() && above.under((#[trigger] dirs[i])@);
    assert(path.under(dirs[i]@));
}

/// A project is listed exactly if it has something to free and changed long enough
/// ago, where an unknown age counts as none. Its entry has the bytes of all its
/// artifacts, the seconds since they changed and the words for those, and nothing
/// has been done with it.
pub proof fn law_discovered(
    project: ProjectModel,
    dir_sizes: Seq<u64>,
    elapsed: Option<u64>,
    min_age: u64,
)
    requires
        sum_of(dir_sizes) <= u64::MAX,
    ensures
        discovered(project, dir_sizes, elapsed, min_age) == match elapsed {
            Some(secs) => if sum_of(dir_sizes) > 0 && secs >= min_age {
                Some(
                    EntryModel {
                        project,
                        artifact_bytes: sum_of(dir_sizes) as u64,
                        last_modified_str: elapsed_text(secs),
                        last_modified_secs: secs,
                        marked: false,
                        cleaning: false,
                        cleaned: false,
                    },
                )
            } else {
                None
            },
            None => if sum_of(dir_sizes) > 0 && min_age == 0 {
                Some(
                    EntryModel {
                        project,
                        artifact_bytes: sum_of(dir_sizes) as u64,
                        last_modified_str: seq![],
                        last_modified_secs: 0,
                        marked: false,
                        cleaning: false,
                        cleaned: false,
                    },
                )
            } else {
                None
            },
        },
{
}

/// An entry is made of what is known of its project, where there is something to
/// free and the project is old enough.
pub proof fn law_listed(
    project: ProjectModel,
    artifact_bytes: u64,
    secs: u64,
    words: Seq<char>,
    min_age: u64,
)
    ensures
        listed(project, artifact_bytes, secs, words, min_age) is Some <==> artifact_bytes > 0
            && secs >= min_age,
        listed(project, artifact_bytes, secs, words, min_age) matches Some(entry) ==> {
            &&& entry.project == project && entry.artifact_bytes == artifact_bytes
            &&& entry.last_modified_secs == secs && entry.last_modified_str == words
            &&& !entry.marked && !entry.cleaning && !entry.cleaned
        },
{
}

/// The sum of sizes adds them up one by one.
pub proof fn law_sum_of(sizes: Seq<u64>, size: u64)
    ensures
        sum_of(seq![]) == 0,
        sum_of(sizes.push(size)) == sum_of(sizes) + size,
{
    assert(sizes.push(size).drop_last() == sizes);
}

/// A path that is given is looked into if it exists, is not known to be a file and
/// could be resolved. One that does not exist, or of which that cannot be told, and
/// one that is a file are complained about by what they are written as.
pub proof fn law_one_more_directory(dirs: Seq<DirectoryProbe>, n: nat)
    requires
        n < dirs.len() <= usize::MAX,
    ensures
        kept_among(dirs, 0).len() == 0 && complaints_among(dirs, 0).len() == 0,
        dirs[n as int].exists == Some(true) && dirs[n as int].is_file != Some(true)
            && dirs[n as int].resolved ==> kept_among(dirs, n + 1) == kept_among(dirs, n).push(
            n as usize,
        ),
        dirs[n as int].exists != Some(true) || dirs[n as int].is_file == Some(true)
            || !dirs[n as int].resolved ==> kept_among(dirs, n + 1) == kept_among(dirs, n),
        dirs[n as int].exists != Some(true) ==> complaints_among(dirs, n + 1) == complaints_among(
            dirs,
            n,
        ).push("error: directory "@ + dirs[n as int].path@.text() + " does not exist"@),
        dirs[n as int].exists == Some(true) && dirs[n as int].is_file == Some(true)
            ==> complaints_among(dirs, n + 1) == complaints_among(dirs, n).push(
            "error: file supplied but directory expected: "@ + dirs[n as int].path@.text(),
        ),
        dirs[n as int].exists == Some(true) && dirs[n as int].is_file != Some(true)
            ==> complaints_among(dirs, n + 1) == complaints_among(dirs, n),
{
}

/// A path is passed over exactly if it begins with all the components of one of the
/// directories to pass over.
pub proof fn law_ignored(path: PathModel, dirs: Seq<ProjectPath>)
    ensures
        ignored(path, dirs) <==> exists|i: int|
            0 <= i < dirs.len() && (#[trigger] dirs[i])@.parts.len() <= path.parts.len()
                && path.parts.take(dirs[i]@.parts.len() as int) == dirs[i]@.parts,
{
    if ignored(path, dirs) {
        let i = choose|i: int| 0 <= i < dirs.len() && path.under((#[trigger] dirs[i])@);
        assert(path.parts.take(dirs[i]@.parts.len() as int) == dirs[i]@.parts);
    }
    if exists|i: int|
        0 <= i < dirs.len() && (#[trigger] dirs[i])@.parts.len() <= path.parts.len()
            && path.parts.take(dirs[i]@.parts.len() as int) == dirs[i]@.parts {
        let i = choose|i: int|
            0 <= i < dirs.len() && (#[trigger] dirs[i])@.parts.len() <= path.parts.len()
                && path.parts.take(dirs[i]@.parts.len() as int) == dirs[i]@.parts;
        assert(dirs[i]@.parts == path.parts.subrange(0, dirs[i]@.parts.len() as int));
        assert(path.under(dirs[i]@));
    }
}

/// An entry that is there is that entry.
pub proof fn law_entry_model(entry: ProjectEntry)
    ensures
        entry_model(Some(entry)) == Some(entry@),
        entry_model(None) is None,
{
}

} // verus!
